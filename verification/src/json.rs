//! Minimal JSON value, its text form, and `FlowData` (the keyed variable bag of
//! instances and tasks).
//!
//! Numbers are exact decimals: `mantissa / 10^scale`.

use vstd::prelude::*;
use crate::text::{
    chars_of, i64_text, int_text, is_ascii_digit, nat_digits, owned, parse_i64, parse_int,
    push_char, push_str, starts_with, has_prefix, views,
};

verus! {

/// An exact decimal: `mantissa / 10^scale`.
#[derive(Debug, Clone, Copy, PartialEq, Eq)]
pub struct JsonNumber {
    pub mantissa: i128,
    pub scale: u32,
}

#[derive(Debug)]
pub enum JsonValue {
    Null,
    Bool(bool),
    Number(JsonNumber),
    Str(String),
    Array(Vec<JsonValue>),
    Object(Vec<(String, JsonValue)>),
}

/// Mathematical value of a JSON document.
pub enum JView {
    Null,
    Bool(bool),
    Number(int, nat),
    Str(Seq<char>),
    Array(Seq<JView>),
    Object(Seq<(Seq<char>, JView)>),
}

pub open spec fn jview(v: JsonValue) -> JView
    decreases v, 0int,
{
    match v {
        JsonValue::Null => JView::Null,
        JsonValue::Bool(b) => JView::Bool(b),
        JsonValue::Number(n) => JView::Number(n.mantissa as int, n.scale as nat),
        JsonValue::Str(s) => JView::Str(s@),
        JsonValue::Array(items) => JView::Array(jview_list(items@)),
        JsonValue::Object(entries) => JView::Object(jview_entries(entries@)),
    }
}

pub open spec fn jview_list(s: Seq<JsonValue>) -> Seq<JView>
    decreases s, 1int,
{
    if s.len() == 0 {
        Seq::empty()
    } else {
        jview_list(s.drop_last()).push(jview(s.last()))
    }
}

pub open spec fn jview_entries(s: Seq<(String, JsonValue)>) -> Seq<(Seq<char>, JView)>
    decreases s, 1int,
{
    if s.len() == 0 {
        Seq::empty()
    } else {
        jview_entries(s.drop_last()).push((s.last().0@, jview(s.last().1)))
    }
}

pub proof fn lemma_jview_list(s: Seq<JsonValue>)
    ensures
        jview_list(s).len() == s.len(),
        forall|i: int| 0 <= i < s.len() ==> #[trigger] jview_list(s)[i] == jview(s[i]),
    decreases s.len(),
{
    if s.len() > 0 {
        lemma_jview_list(s.drop_last());
    }
}

pub proof fn lemma_jview_entries(s: Seq<(String, JsonValue)>)
    ensures
        jview_entries(s).len() == s.len(),
        forall|i: int|
            0 <= i < s.len() ==> #[trigger] jview_entries(s)[i] == (s[i].0@, jview(s[i].1)),
    decreases s.len(),
{
    if s.len() > 0 {
        lemma_jview_entries(s.drop_last());
    }
}

pub proof fn lemma_jview_entries_push(s: Seq<(String, JsonValue)>, p: (String, JsonValue))
    ensures
        jview_entries(s.push(p)) == jview_entries(s).push((p.0@, jview(p.1))),
{
    assert(s.push(p).drop_last() =~= s);
}

pub proof fn lemma_jview_list_push(s: Seq<JsonValue>, p: JsonValue)
    ensures
        jview_list(s.push(p)) == jview_list(s).push(jview(p)),
{
    assert(s.push(p).drop_last() =~= s);
}

pub open spec fn pow10(n: nat) -> int
    decreases n,
{
    if n == 0 {
        1
    } else {
        10 * pow10((n - 1) as nat)
    }
}

/// Division by ten rounding toward zero (what `as i64` truncation does).
pub open spec fn trunc10(x: int) -> int {
    if x >= 0 {
        x / 10
    } else {
        -((-x) / 10)
    }
}

/// `mantissa / 10^scale` rounded toward zero.
pub open spec fn trunc_decimal(m: int, s: nat) -> int
    decreases s,
{
    if s == 0 {
        m
    } else {
        trunc10(trunc_decimal(m, (s - 1) as nat))
    }
}

/// Saturating conversion into the `i64` range (what a float-to-int `as` does).
pub open spec fn saturate_i64(x: int) -> i64 {
    if x < i64::MIN {
        i64::MIN
    } else if x > i64::MAX {
        i64::MAX
    } else {
        x as i64
    }
}

/// What `as_i64` yields for a view.
pub open spec fn jview_as_i64(v: JView) -> Option<i64> {
    match v {
        JView::Number(m, s) => Some(saturate_i64(trunc_decimal(m, s))),
        JView::Str(t) => parse_int(t),
        _ => None,
    }
}

pub open spec fn jview_as_str(v: JView) -> Option<Seq<char>> {
    match v {
        JView::Str(t) => Some(t),
        _ => None,
    }
}

/// The text a lookup holds, if it holds one.
pub open spec fn jview_as_str_opt(v: Option<JView>) -> Option<Seq<char>> {
    match v {
        Some(JView::Str(t)) => Some(t),
        _ => None,
    }
}

pub open spec fn zeros(n: nat) -> Seq<char> {
    Seq::new(n, |i: int| '0')
}

/// Text of a decimal number: integer digits, then a point and `scale` fraction digits.
pub open spec fn number_text(m: int, s: nat) -> Seq<char> {
    if s == 0 {
        int_text(m)
    } else {
        let a: nat = if m < 0 { (-m) as nat } else { m as nat };
        let d = nat_digits(a);
        let padded = if d.len() < s + 1 { zeros((s + 1 - d.len()) as nat) + d } else { d };
        let sign = if m < 0 { seq!['-'] } else { Seq::<char>::empty() };
        sign + padded.take(padded.len() - s) + seq!['.'] + padded.skip(padded.len() - s)
    }
}

pub open spec fn hex_digit(d: nat) -> char {
    if d < 10 {
        (('0' as nat) + d) as char
    } else {
        (('a' as nat) + d - 10) as char
    }
}

/// Escaped form of one character inside a JSON string literal.
pub open spec fn escape_char(c: char) -> Seq<char> {
    if c == '"' {
        seq!['\\', '"']
    } else if c == '\\' {
        seq!['\\', '\\']
    } else if c == '\n' {
        seq!['\\', 'n']
    } else if c == '\r' {
        seq!['\\', 'r']
    } else if c == '\t' {
        seq!['\\', 't']
    } else if (c as nat) < 0x20 {
        seq!['\\', 'u', '0', '0', hex_digit((c as nat) / 16), hex_digit((c as nat) % 16)]
    } else {
        seq![c]
    }
}

pub open spec fn escape_text(s: Seq<char>) -> Seq<char>
    decreases s.len(),
{
    if s.len() == 0 {
        Seq::empty()
    } else {
        escape_text(s.drop_last()) + escape_char(s.last())
    }
}

pub open spec fn quoted(s: Seq<char>) -> Seq<char> {
    seq!['"'] + escape_text(s) + seq!['"']
}

/// Compact JSON text of a value.
pub open spec fn json_text(v: JView) -> Seq<char>
    decreases v, 0int,
{
    match v {
        JView::Null => "null"@,
        JView::Bool(b) => if b { "true"@ } else { "false"@ },
        JView::Number(m, s) => number_text(m, s),
        JView::Str(t) => quoted(t),
        JView::Array(items) => seq!['['] + items_text(items) + seq![']'],
        JView::Object(entries) => seq!['{'] + entries_text(entries) + seq!['}'],
    }
}

pub open spec fn items_text(s: Seq<JView>) -> Seq<char>
    decreases s, 1int,
{
    if s.len() == 0 {
        Seq::empty()
    } else if s.len() == 1 {
        json_text(s[0])
    } else {
        items_text(s.drop_last()) + seq![','] + json_text(s.last())
    }
}

pub open spec fn entries_text(s: Seq<(Seq<char>, JView)>) -> Seq<char>
    decreases s, 1int,
{
    if s.len() == 0 {
        Seq::empty()
    } else if s.len() == 1 {
        quoted(s[0].0) + seq![':'] + json_text(s[0].1)
    } else {
        entries_text(s.drop_last()) + seq![','] + quoted(s.last().0) + seq![':'] + json_text(
            s.last().1,
        )
    }
}

fn hex_char(d: u32) -> (c: char)
    requires
        d < 16,
    ensures
        c == hex_digit(d as nat),
{
    if d < 10 {
        if d == 0 { '0' } else if d == 1 { '1' } else if d == 2 { '2' } else if d == 3 { '3' }
        else if d == 4 { '4' } else if d == 5 { '5' } else if d == 6 { '6' } else if d == 7 { '7' }
        else if d == 8 { '8' } else { '9' }
    } else {
        if d == 10 { 'a' } else if d == 11 { 'b' } else if d == 12 { 'c' } else if d == 13 { 'd' }
        else if d == 14 { 'e' } else { 'f' }
    }
}

fn push_escaped(out: &mut String, c: char)
    ensures
        final(out)@ == old(out)@ + escape_char(c),
{
    let ghost o = out@;
    if c == '"' {
        push_char(out, '\\');
        push_char(out, '"');
    } else if c == '\\' {
        push_char(out, '\\');
        push_char(out, '\\');
    } else if c == '\n' {
        push_char(out, '\\');
        push_char(out, 'n');
    } else if c == '\r' {
        push_char(out, '\\');
        push_char(out, 'r');
    } else if c == '\t' {
        push_char(out, '\\');
        push_char(out, 't');
    } else if (c as u32) < 0x20 {
        let code = c as u32;
        push_char(out, '\\');
        push_char(out, 'u');
        push_char(out, '0');
        push_char(out, '0');
        push_char(out, hex_char(code / 16));
        push_char(out, hex_char(code % 16));
    } else {
        push_char(out, c);
    }
    assert(out@ =~= o + escape_char(c));
}

/// `s` escaped for use inside a JSON string literal.
pub fn escape_json_str(s: &str) -> (r: String)
    ensures
        r@ == escape_text(s@),
{
    let v = chars_of(s);
    let mut out = String::new();
    let mut i: usize = 0;
    while i < v.len()
        invariant
            0 <= i <= v.len(),
            v@ == s@,
            out@ == escape_text(v@.take(i as int)),
        decreases v.len() - i,
    {
        assert(v@.take(i + 1).drop_last() =~= v@.take(i as int));
        push_escaped(&mut out, v[i]);
        i = i + 1;
    }
    assert(v@.take(v.len() as int) =~= v@);
    out
}

fn push_quoted(out: &mut String, s: &str)
    ensures
        final(out)@ == old(out)@ + quoted(s@),
{
    let ghost o = out@;
    push_char(out, '"');
    let e = escape_json_str(s);
    push_str(out, e.as_str());
    push_char(out, '"');
    assert(out@ =~= o + quoted(s@));
}

fn u128_text(n: u128) -> (r: Vec<char>)
    ensures
        r@ == nat_digits(n as nat),
    decreases n,
{
    if n < 10 {
        let mut v: Vec<char> = Vec::new();
        v.push(hex_char(n as u32));
        assert(v@ =~= nat_digits(n as nat));
        v
    } else {
        let mut v = u128_text(n / 10);
        v.push(hex_char((n % 10) as u32));
        v
    }
}

fn push_all(out: &mut String, d: &Vec<char>, lo: usize, hi: usize)
    requires
        lo <= hi <= d.len(),
    ensures
        final(out)@ == old(out)@ + d@.subrange(lo as int, hi as int),
{
    let ghost o = out@;
    let mut i: usize = lo;
    while i < hi
        invariant
            lo <= i <= hi <= d.len(),
            out@ == o + d@.subrange(lo as int, i as int),
        decreases hi - i,
    {
        push_char(out, d[i]);
        i = i + 1;
        assert(out@ =~= o + d@.subrange(lo as int, i as int));
    }
}

fn abs_digits(m: i128) -> (r: Vec<char>)
    ensures
        r@ == nat_digits(if m < 0 { (-m) as nat } else { m as nat }),
        r@.len() >= 1,
{
    let a: u128 = if m < 0 {
        if m == i128::MIN { 170141183460469231731687303715884105728u128 } else { (-m) as u128 }
    } else {
        m as u128
    };
    assert(a as int == if m < 0 { -(m as int) } else { m as int });
    u128_text(a)
}

fn left_pad(d: &Vec<char>, s: usize) -> (r: Vec<char>)
    requires
        d@.len() >= 1,
    ensures
        r@ == if d@.len() < s + 1 { zeros((s + 1 - d@.len()) as nat) + d@ } else { d@ },
{
    let mut padded: Vec<char> = Vec::new();
    if d.len() <= s {
        let gap = s - d.len() + 1;
        let mut k: usize = 0;
        while k < gap
            invariant
                gap == s - d.len() + 1,
                0 <= k <= gap,
                padded@ == zeros(k as nat),
            decreases gap - k,
        {
            padded.push('0');
            k = k + 1;
            assert(padded@ =~= zeros(k as nat));
        }
    }
    let ghost z = padded@;
    let mut j: usize = 0;
    while j < d.len()
        invariant
            0 <= j <= d.len(),
            padded@ == z + d@.take(j as int),
        decreases d.len() - j,
    {
        padded.push(d[j]);
        j = j + 1;
        assert(padded@ =~= z + d@.take(j as int));
    }
    assert(d@.take(d.len() as int) =~= d@);
    assert(padded@ =~= (if d@.len() < s + 1 { zeros((s + 1 - d@.len()) as nat) + d@ } else { d@ }));
    padded
}

/// Text of a decimal number.
pub fn number_to_text(n: JsonNumber) -> (r: String)
    ensures
        r@ == number_text(n.mantissa as int, n.scale as nat),
{
    let m = n.mantissa;
    let d = abs_digits(m);
    let mut out = String::new();
    if m < 0 {
        push_char(&mut out, '-');
    }
    if n.scale == 0 {
        push_all(&mut out, &d, 0, d.len());
        assert(d@.subrange(0, d@.len() as int) =~= d@);
        assert(out@ =~= int_text(m as int));
        return out;
    }
    let s = n.scale as usize;
    let padded = left_pad(&d, s);
    let cut = padded.len() - s;
    let ghost o = out@;
    push_all(&mut out, &padded, 0, cut);
    push_char(&mut out, '.');
    push_all(&mut out, &padded, cut, padded.len());
    assert(padded@.subrange(0, cut as int) =~= padded@.take(cut as int));
    assert(padded@.subrange(cut as int, padded.len() as int) =~= padded@.skip(cut as int));
    assert(out@ =~= number_text(m as int, n.scale as nat));
    out
}

impl JsonValue {
    /// A copy that has the same value.
    pub fn dup(&self) -> (r: JsonValue)
        ensures
            jview(r) == jview(*self),
        decreases self,
    {
        match self {
            JsonValue::Null => JsonValue::Null,
            JsonValue::Bool(b) => JsonValue::Bool(*b),
            JsonValue::Number(n) => JsonValue::Number(*n),
            JsonValue::Str(s) => JsonValue::Str(s.clone()),
            JsonValue::Array(items) => {
                let mut out: Vec<JsonValue> = Vec::new();
                let mut i: usize = 0;
                while i < items.len()
                    invariant
                        0 <= i <= items.len(),
                        jview_list(out@) == jview_list(items@.take(i as int)),
                        *self == JsonValue::Array(*items),
                    decreases items.len() - i,
                {
                    proof {
                        assert(decreases_to!(*self => self->Array_0));
                        assert(decreases_to!(*items => items@));
                        assert(decreases_to!(items@ => items@[i as int]));
                    }
                    let x = items[i].dup();
                    let ghost before = out@;
                    out.push(x);
                    proof {
                        lemma_jview_list_push(before, x);
                        assert(items@.take(i + 1) =~= items@.take(i as int).push(items@[i as int]));
                        lemma_jview_list_push(items@.take(i as int), items@[i as int]);
                    }
                    i = i + 1;
                }
                assert(items@.take(items.len() as int) =~= items@);
                JsonValue::Array(out)
            }
            JsonValue::Object(entries) => {
                let mut out: Vec<(String, JsonValue)> = Vec::new();
                let mut i: usize = 0;
                while i < entries.len()
                    invariant
                        0 <= i <= entries.len(),
                        jview_entries(out@) == jview_entries(entries@.take(i as int)),
                        *self == JsonValue::Object(*entries),
                    decreases entries.len() - i,
                {
                    proof {
                        assert(decreases_to!(*self => self->Object_0));
                        assert(decreases_to!(*entries => entries@));
                        assert(decreases_to!(entries@ => entries@[i as int]));
                        assert(decreases_to!(entries@[i as int] => entries@[i as int].1));
                    }
                    let x = entries[i].1.dup();
                    let k = entries[i].0.clone();
                    let ghost before = out@;
                    out.push((k, x));
                    proof {
                        lemma_jview_entries_push(before, (k, x));
                        assert(entries@.take(i + 1) =~= entries@.take(i as int).push(entries@[i as int]));
                        lemma_jview_entries_push(entries@.take(i as int), entries@[i as int]);
                    }
                    i = i + 1;
                }
                assert(entries@.take(entries.len() as int) =~= entries@);
                JsonValue::Object(out)
            }
        }
    }

    pub fn as_str(&self) -> (r: Option<&str>)
        ensures
            match r {
                Some(s) => jview(*self) == JView::Str(s@),
                None => !(jview(*self) is Str),
            },
    {
        match self {
            JsonValue::Str(s) => Some(s.as_str()),
            _ => None,
        }
    }

    /// Integer value: numbers rounded toward zero (saturating), strings parsed as `i64`.
    pub fn as_i64(&self) -> (r: Option<i64>)
        ensures
            r == jview_as_i64(jview(*self)),
    {
        match self {
            JsonValue::Number(n) => Some(number_as_i64(*n)),
            JsonValue::Str(s) => parse_i64(s.as_str()),
            _ => None,
        }
    }

    pub fn as_bool(&self) -> (r: Option<bool>)
        ensures
            match jview(*self) {
                JView::Bool(b) => r == Some(b),
                _ => r is None,
            },
    {
        match self {
            JsonValue::Bool(b) => Some(*b),
            _ => None,
        }
    }

    pub fn as_object(&self) -> (r: Option<&Vec<(String, JsonValue)>>)
        ensures
            match r {
                Some(e) => jview(*self) == JView::Object(jview_entries(e@)),
                None => !(jview(*self) is Object),
            },
    {
        match self {
            JsonValue::Object(m) => Some(m),
            _ => None,
        }
    }

    pub fn as_array(&self) -> (r: Option<&Vec<JsonValue>>)
        ensures
            match r {
                Some(a) => jview(*self) == JView::Array(jview_list(a@)),
                None => !(jview(*self) is Array),
            },
    {
        match self {
            JsonValue::Array(a) => Some(a),
            _ => None,
        }
    }

    /// Field of an object by key: the first entry with that key.
    pub fn get(&self, key: &str) -> (r: Option<&JsonValue>)
        ensures
            match jview(*self) {
                JView::Object(es) => match r {
                    Some(v) => entry_lookup(es, key@) == Some(jview(*v)),
                    None => entry_lookup(es, key@) is None,
                },
                _ => r is None,
            },
    {
        match self {
            JsonValue::Object(entries) => {
                proof {
                    lemma_jview_entries(entries@);
                }
                let mut i: usize = 0;
                while i < entries.len()
                    invariant
                        0 <= i <= entries.len(),
                        jview_entries(entries@).len() == entries@.len(),
                        forall|j: int| 0 <= j < entries@.len() ==> #[trigger] jview_entries(entries@)[j] == (entries@[j].0@, jview(entries@[j].1)),
                        forall|j: int| 0 <= j < i ==> jview_entries(entries@)[j].0 != key@,
                        *self == JsonValue::Object(*entries),
                    decreases entries.len() - i,
                {
                    if crate::text::str_eq(entries[i].0.as_str(), key) {
                        proof {
                            lemma_entry_lookup_first(jview_entries(entries@), key@, i as int);
                        }
                        return Some(&entries[i].1);
                    }
                    i = i + 1;
                }
                proof {
                    lemma_entry_lookup_none(jview_entries(entries@), key@);
                }
                None
            }
            _ => None,
        }
    }

    /// String field of an object.
    pub fn get_str(&self, key: &str) -> (r: Option<&str>)
        ensures
            match jview(*self) {
                JView::Object(es) => match entry_lookup(es, key@) {
                    Some(JView::Str(t)) => r is Some && r.unwrap()@ == t,
                    _ => r is None,
                },
                _ => r is None,
            },
    {
        match self.get(key) {
            Some(v) => v.as_str(),
            None => None,
        }
    }

    /// Integer field of an object.
    pub fn get_i64(&self, key: &str) -> (r: Option<i64>)
        ensures
            match jview(*self) {
                JView::Object(es) => r == match entry_lookup(es, key@) {
                    Some(v) => jview_as_i64(v),
                    None => None,
                },
                _ => r is None,
            },
    {
        match self.get(key) {
            Some(v) => v.as_i64(),
            None => None,
        }
    }

    pub fn is_null(&self) -> (r: bool)
        ensures
            r == (jview(*self) is Null),
    {
        match self {
            JsonValue::Null => true,
            _ => false,
        }
    }

    /// An object from entries.
    pub fn object(entries: Vec<(String, JsonValue)>) -> (r: JsonValue)
        ensures
            jview(r) == JView::Object(jview_entries(entries@)),
    {
        JsonValue::Object(entries)
    }

    /// A string value.
    pub fn string(s: &str) -> (r: JsonValue)
        ensures
            jview(r) == JView::Str(s@),
    {
        JsonValue::Str(owned(s))
    }

    /// An integral number.
    pub fn number(n: i64) -> (r: JsonValue)
        ensures
            jview(r) == JView::Number(n as int, 0),
    {
        JsonValue::Number(JsonNumber { mantissa: n as i128, scale: 0 })
    }

    /// Compact JSON text.
    pub fn to_json_string(&self) -> (r: String)
        ensures
            r@ == json_text(jview(*self)),
    {
        let mut out = String::new();
        self.write_json(&mut out);
        assert(out@ =~= json_text(jview(*self)));
        out
    }

    fn write_json(&self, out: &mut String)
        ensures
            final(out)@ == old(out)@ + json_text(jview(*self)),
        decreases self,
    {
        let ghost o = out@;
        match self {
            JsonValue::Null => push_str(out, "null"),
            JsonValue::Bool(b) => if *b {
                push_str(out, "true")
            } else {
                push_str(out, "false")
            },
            JsonValue::Number(n) => {
                let t = number_to_text(*n);
                push_str(out, t.as_str());
            },
            JsonValue::Str(s) => push_quoted(out, s.as_str()),
            JsonValue::Array(items) => {
                push_char(out, '[');
                let mut i: usize = 0;
                proof { lemma_jview_list(items@); }
                while i < items.len()
                    invariant
                        0 <= i <= items.len(),
                        *self == JsonValue::Array(*items),
                        out@ == o + seq!['['] + items_text(jview_list(items@.take(i as int))),
                    decreases items.len() - i,
                {
                    proof {
                        assert(decreases_to!(*self => self->Array_0));
                        assert(decreases_to!(*items => items@));
                        assert(decreases_to!(items@ => items@[i as int]));
                        assert(items@.take(i + 1) =~= items@.take(i as int).push(items@[i as int]));
                        lemma_jview_list_push(items@.take(i as int), items@[i as int]);
                        lemma_jview_list(items@.take(i as int));
                    }
                    if i > 0 {
                        push_char(out, ',');
                    }
                    items[i].write_json(out);
                    i = i + 1;
                    proof {
                        let prev = jview_list(items@.take(i - 1));
                        let cur = jview_list(items@.take(i as int));
                        assert(cur.drop_last() =~= prev);
                        if i == 1 {
                            assert(out@ =~= o + seq!['['] + items_text(cur));
                        } else {
                            assert(out@ =~= o + seq!['['] + items_text(cur));
                        }
                    }
                }
                assert(items@.take(items.len() as int) =~= items@);
                push_char(out, ']');
            },
            JsonValue::Object(entries) => {
                push_char(out, '{');
                let mut i: usize = 0;
                while i < entries.len()
                    invariant
                        0 <= i <= entries.len(),
                        *self == JsonValue::Object(*entries),
                        out@ == o + seq!['{'] + entries_text(jview_entries(entries@.take(i as int))),
                    decreases entries.len() - i,
                {
                    proof {
                        assert(decreases_to!(*self => self->Object_0));
                        assert(decreases_to!(*entries => entries@));
                        assert(decreases_to!(entries@ => entries@[i as int]));
                        assert(decreases_to!(entries@[i as int] => entries@[i as int].1));
                        assert(entries@.take(i + 1) =~= entries@.take(i as int).push(entries@[i as int]));
                        lemma_jview_entries_push(entries@.take(i as int), entries@[i as int]);
                        lemma_jview_entries(entries@.take(i as int));
                    }
                    if i > 0 {
                        push_char(out, ',');
                    }
                    push_quoted(out, entries[i].0.as_str());
                    push_char(out, ':');
                    entries[i].1.write_json(out);
                    i = i + 1;
                    proof {
                        let prev = jview_entries(entries@.take(i - 1));
                        let cur = jview_entries(entries@.take(i as int));
                        assert(cur.drop_last() =~= prev);
                        assert(out@ =~= o + seq!['{'] + entries_text(cur));
                    }
                }
                assert(entries@.take(entries.len() as int) =~= entries@);
                push_char(out, '}');
            },
        }
        assert(out@ =~= o + json_text(jview(*self)));
    }
}

/// Integer value of a decimal, rounded toward zero and saturated to `i64`.
pub fn number_as_i64(n: JsonNumber) -> (r: i64)
    ensures
        r == saturate_i64(trunc_decimal(n.mantissa as int, n.scale as nat)),
{
    let mut m: i128 = n.mantissa;
    let mut k: u32 = 0;
    while k < n.scale
        invariant
            0 <= k <= n.scale,
            m as int == trunc_decimal(n.mantissa as int, k as nat),
        decreases n.scale - k,
    {
        m = m / 10;
        k = k + 1;
    }
    if m < i64::MIN as i128 {
        i64::MIN
    } else if m > i64::MAX as i128 {
        i64::MAX
    } else {
        m as i64
    }
}

/// The first entry with key `k`.
pub open spec fn entry_lookup(es: Seq<(Seq<char>, JView)>, k: Seq<char>) -> Option<JView>
    decreases es.len(),
{
    if es.len() == 0 {
        None
    } else if es[0].0 == k {
        Some(es[0].1)
    } else {
        entry_lookup(es.drop_first(), k)
    }
}

pub proof fn lemma_entry_lookup_first(es: Seq<(Seq<char>, JView)>, k: Seq<char>, i: int)
    requires
        0 <= i < es.len(),
        es[i].0 == k,
        forall|j: int| 0 <= j < i ==> es[j].0 != k,
    ensures
        entry_lookup(es, k) == Some(es[i].1),
    decreases i,
{
    if i > 0 {
        lemma_entry_lookup_first(es.drop_first(), k, i - 1);
    }
}

pub proof fn lemma_entry_lookup_none(es: Seq<(Seq<char>, JView)>, k: Seq<char>)
    requires
        forall|j: int| 0 <= j < es.len() ==> es[j].0 != k,
    ensures
        entry_lookup(es, k) is None,
    decreases es.len(),
{
    if es.len() > 0 {
        lemma_entry_lookup_none(es.drop_first(), k);
    }
}

pub proof fn lemma_entry_lookup_some(es: Seq<(Seq<char>, JView)>, k: Seq<char>)
    requires
        entry_lookup(es, k) is Some,
    ensures
        exists|j: int| 0 <= j < es.len() && es[j].0 == k && entry_lookup(es, k) == Some(es[j].1),
    decreases es.len(),
{
    if es[0].0 != k {
        lemma_entry_lookup_some(es.drop_first(), k);
        let j = choose|j: int| 0 <= j < es.drop_first().len() && es.drop_first()[j].0 == k && entry_lookup(es.drop_first(), k) == Some(es.drop_first()[j].1);
        assert(es[j + 1] == es.drop_first()[j]);
    }
}


pub open spec fn distinct_keys(es: Seq<(Seq<char>, JView)>) -> bool {
    forall|i: int, j: int| 0 <= i < j < es.len() ==> es[i].0 != es[j].0
}

/// Looking up in a sequence with one more entry at the end.
pub proof fn lemma_entry_lookup_push(es: Seq<(Seq<char>, JView)>, e: (Seq<char>, JView), k: Seq<char>)
    ensures
        entry_lookup(es.push(e), k) == match entry_lookup(es, k) {
            Some(v) => Some(v),
            None => if e.0 == k { Some(e.1) } else { None },
        },
    decreases es.len(),
{
    if es.len() > 0 {
        assert(es.push(e).drop_first() =~= es.drop_first().push(e));
        assert(es.push(e)[0] == es[0]);
        lemma_entry_lookup_push(es.drop_first(), e, k);
    } else {
        assert(es.push(e).drop_first() =~= Seq::<(Seq<char>, JView)>::empty());
        assert(es.push(e)[0] == e);
        assert(entry_lookup(es.push(e).drop_first(), k) is None);
    }
}

/// With distinct keys, a prefix one entry longer looks up its last key there and every other
/// key as the shorter prefix does.
pub proof fn lemma_entry_lookup_take_step(es: Seq<(Seq<char>, JView)>, i: int, k: Seq<char>)
    requires
        distinct_keys(es),
        0 <= i < es.len(),
    ensures
        entry_lookup(es.take(i + 1), k) == if es[i].0 == k { Some(es[i].1) } else { entry_lookup(es.take(i), k) },
{
    assert(es.take(i + 1) =~= es.take(i).push(es[i]));
    lemma_entry_lookup_push(es.take(i), es[i], k);
    if es[i].0 == k {
        assert forall|j: int| 0 <= j < es.take(i).len() implies es.take(i)[j].0 != k by {
            assert(es.take(i)[j] == es[j]);
        }
        lemma_entry_lookup_none(es.take(i), k);
    }
}

/// With distinct keys, an entry at `i` is what the key looks up.
pub proof fn lemma_lookup_at(es: Seq<(Seq<char>, JView)>, i: int)
    requires
        distinct_keys(es),
        0 <= i < es.len(),
    ensures
        entry_lookup(es, es[i].0) == Some(es[i].1),
{
    lemma_entry_lookup_first(es, es[i].0, i);
}

/// A key either sits at some index or looks up nothing.
pub proof fn lemma_lookup_cases(es: Seq<(Seq<char>, JView)>, k: Seq<char>)
    requires
        distinct_keys(es),
    ensures
        (exists|i: int| 0 <= i < es.len() && es[i].0 == k) || entry_lookup(es, k) is None,
{
    if forall|j: int| 0 <= j < es.len() ==> es[j].0 != k {
        lemma_entry_lookup_none(es, k);
    }
}

/// The keys of `es` that start with `p`, in order.
pub open spec fn prefixed_keys(es: Seq<(Seq<char>, JView)>, p: Seq<char>) -> Seq<Seq<char>>
    decreases es.len(),
{
    if es.len() == 0 {
        Seq::empty()
    } else if starts_with(es.last().0, p) {
        prefixed_keys(es.drop_last(), p).push(es.last().0)
    } else {
        prefixed_keys(es.drop_last(), p)
    }
}

/// The last entry with key `k` (later entries win).
pub open spec fn last_lookup(es: Seq<(Seq<char>, JView)>, k: Seq<char>) -> Option<JView>
    decreases es.len(),
{
    if es.len() == 0 {
        None
    } else if es.last().0 == k {
        Some(es.last().1)
    } else {
        last_lookup(es.drop_last(), k)
    }
}

pub proof fn lemma_jview_entries_update(s: Seq<(String, JsonValue)>, i: int, p: (String, JsonValue))
    requires
        0 <= i < s.len(),
    ensures
        jview_entries(s.update(i, p)) == jview_entries(s).update(i, (p.0@, jview(p.1))),
{
    lemma_jview_entries(s);
    lemma_jview_entries(s.update(i, p));
    assert(jview_entries(s.update(i, p)) =~= jview_entries(s).update(i, (p.0@, jview(p.1))));
}

pub proof fn lemma_update_lookup(es: Seq<(Seq<char>, JView)>, i: int, p: (Seq<char>, JView))
    requires
        distinct_keys(es),
        0 <= i < es.len(),
        es[i].0 == p.0,
    ensures
        distinct_keys(es.update(i, p)),
        forall|q: Seq<char>| #[trigger] entry_lookup(es.update(i, p), q) == if q == p.0 {
            Some(p.1)
        } else {
            entry_lookup(es, q)
        },
{
    let n = es.update(i, p);
    assert(distinct_keys(n));
    assert forall|q: Seq<char>| #[trigger] entry_lookup(n, q) == if q == p.0 {
        Some(p.1)
    } else {
        entry_lookup(es, q)
    } by {
        if q == p.0 {
            lemma_lookup_at(n, i);
        } else {
            lemma_lookup_cases(es, q);
            lemma_lookup_cases(n, q);
            if exists|j: int| 0 <= j < es.len() && es[j].0 == q {
                let j = choose|j: int| 0 <= j < es.len() && es[j].0 == q;
                lemma_lookup_at(es, j);
                lemma_lookup_at(n, j);
            } else if exists|j: int| 0 <= j < n.len() && n[j].0 == q {
                let j = choose|j: int| 0 <= j < n.len() && n[j].0 == q;
                assert(es[j].0 == q);
            }
        }
    }
}

pub proof fn lemma_push_lookup(es: Seq<(Seq<char>, JView)>, p: (Seq<char>, JView))
    requires
        distinct_keys(es),
        forall|j: int| 0 <= j < es.len() ==> es[j].0 != p.0,
    ensures
        distinct_keys(es.push(p)),
        forall|q: Seq<char>| #[trigger] entry_lookup(es.push(p), q) == if q == p.0 {
            Some(p.1)
        } else {
            entry_lookup(es, q)
        },
{
    let n = es.push(p);
    assert(distinct_keys(n));
    assert forall|q: Seq<char>| #[trigger] entry_lookup(n, q) == if q == p.0 {
        Some(p.1)
    } else {
        entry_lookup(es, q)
    } by {
        if q == p.0 {
            lemma_lookup_at(n, es.len() as int);
        } else {
            lemma_lookup_cases(es, q);
            lemma_lookup_cases(n, q);
            if exists|j: int| 0 <= j < es.len() && es[j].0 == q {
                let j = choose|j: int| 0 <= j < es.len() && es[j].0 == q;
                lemma_lookup_at(es, j);
                lemma_lookup_at(n, j);
            } else if exists|j: int| 0 <= j < n.len() && n[j].0 == q {
                let j = choose|j: int| 0 <= j < n.len() && n[j].0 == q;
                assert(j < es.len());
                assert(es[j].0 == q);
            }
        }
    }
}

pub proof fn lemma_remove_lookup(es: Seq<(Seq<char>, JView)>, i: int)
    requires
        distinct_keys(es),
        0 <= i < es.len(),
    ensures
        distinct_keys(es.remove(i)),
        forall|q: Seq<char>| #[trigger] entry_lookup(es.remove(i), q) == if q == es[i].0 {
            None
        } else {
            entry_lookup(es, q)
        },
{
    let n = es.remove(i);
    assert forall|a: int, b: int| 0 <= a < b < n.len() implies n[a].0 != n[b].0 by {
        let a2 = if a < i { a } else { a + 1 };
        let b2 = if b < i { b } else { b + 1 };
        assert(n[a] == es[a2]);
        assert(n[b] == es[b2]);
    }
    assert forall|q: Seq<char>| #[trigger] entry_lookup(n, q) == if q == es[i].0 {
        None
    } else {
        entry_lookup(es, q)
    } by {
        lemma_lookup_cases(n, q);
        lemma_lookup_cases(es, q);
        if exists|j: int| 0 <= j < n.len() && n[j].0 == q {
            let j = choose|j: int| 0 <= j < n.len() && n[j].0 == q;
            let j2 = if j < i { j } else { j + 1 };
            assert(n[j] == es[j2]);
            lemma_lookup_at(n, j);
            lemma_lookup_at(es, j2);
        } else if exists|j: int| 0 <= j < es.len() && es[j].0 == q {
            let j = choose|j: int| 0 <= j < es.len() && es[j].0 == q;
            if j != i {
                let j3 = if j < i { j } else { j - 1 };
                assert(n[j3] == es[j]);
            }
        }
    }
}

/// Process / task variables: string keys mapped to JSON values, each key at most once,
/// in the order keys were first inserted.
#[derive(Debug)]
pub struct FlowData {
    entries: Vec<(String, JsonValue)>,
}

impl FlowData {
    /// The key/value pairs, in insertion order.
    pub closed spec fn kv(self) -> Seq<(Seq<char>, JView)> {
        jview_entries(self.entries@)
    }

    pub open spec fn lookup(self, k: Seq<char>) -> Option<JView> {
        entry_lookup(self.kv(), k)
    }

    pub open spec fn keys(self) -> Seq<Seq<char>> {
        self.kv().map_values(|p: (Seq<char>, JView)| p.0)
    }

    #[verifier::type_invariant]
    spec fn inv(self) -> bool {
        distinct_keys(jview_entries(self.entries@))
    }

    pub fn new() -> (r: FlowData)
        ensures
            r.kv() == Seq::<(Seq<char>, JView)>::empty(),
    {
        FlowData { entries: Vec::new() }
    }

    /// Index of `key`, if present.
    fn find(&self, key: &str) -> (r: Option<usize>)
        ensures
            match r {
                Some(i) => i < self.kv().len() && i < self.entries@.len() && self.kv()[i as int].0 == key@
                    && self.lookup(key@) == Some(self.kv()[i as int].1)
                    && self.entries@[i as int].0@ == key@ && jview(self.entries@[i as int].1) == self.kv()[i as int].1,
                None => self.lookup(key@) is None && forall|j: int| 0 <= j < self.kv().len() ==> self.kv()[j].0 != key@,
            },
    {
        proof {
            use_type_invariant(self);
            lemma_jview_entries(self.entries@);
        }
        let mut i: usize = 0;
        while i < self.entries.len()
            invariant
                0 <= i <= self.entries.len(),
                jview_entries(self.entries@).len() == self.entries@.len(),
                forall|j: int| 0 <= j < self.entries@.len() ==> #[trigger] jview_entries(self.entries@)[j] == (self.entries@[j].0@, jview(self.entries@[j].1)),
                forall|j: int| 0 <= j < i ==> jview_entries(self.entries@)[j].0 != key@,
            decreases self.entries.len() - i,
        {
            if crate::text::str_eq(self.entries[i].0.as_str(), key) {
                proof {
                    lemma_entry_lookup_first(self.kv(), key@, i as int);
                }
                return Some(i);
            }
            i = i + 1;
        }
        proof {
            lemma_entry_lookup_none(self.kv(), key@);
        }
        None
    }

    pub fn get(&self, key: &str) -> (r: Option<&JsonValue>)
        ensures
            match r {
                Some(v) => self.lookup(key@) == Some(jview(*v)),
                None => self.lookup(key@) is None,
            },
    {
        match self.find(key) {
            Some(i) => Some(&self.entries[i].1),
            None => None,
        }
    }

    pub fn get_str(&self, key: &str) -> (r: Option<&str>)
        ensures
            match self.lookup(key@) {
                Some(JView::Str(t)) => r is Some && r.unwrap()@ == t,
                _ => r is None,
            },
    {
        match self.get(key) {
            Some(v) => v.as_str(),
            None => None,
        }
    }

    pub fn get_i64(&self, key: &str) -> (r: Option<i64>)
        ensures
            r == match self.lookup(key@) {
                Some(v) => jview_as_i64(v),
                None => None,
            },
    {
        match self.get(key) {
            Some(v) => v.as_i64(),
            None => None,
        }
    }

    pub fn contains_key(&self, key: &str) -> (r: bool)
        ensures
            r == self.lookup(key@) is Some,
    {
        self.find(key).is_some()
    }

    /// Set `key` to `value`, keeping the key's position if it was there.
    pub fn insert(&mut self, key: String, value: JsonValue)
        ensures
            forall|q: Seq<char>| #[trigger] final(self).lookup(q) == if q == key@ {
                Some(jview(value))
            } else {
                old(self).lookup(q)
            },
            final(self).keys() == if old(self).lookup(key@) is Some {
                old(self).keys()
            } else {
                old(self).keys().push(key@)
            },
    {
        proof {
            use_type_invariant(&*self);
            lemma_jview_entries(self.entries@);
        }
        let ghost old_kv = self.kv();
        let ghost pair_view = (key@, jview(value));
        match self.find(key.as_str()) {
            Some(i) => {
                let ghost before = self.entries@;
                let mut tmp: Vec<(String, JsonValue)> = Vec::new();
                std::mem::swap(&mut tmp, &mut self.entries);
                tmp.set(i, (key, value));
                proof {
                    lemma_jview_entries_update(before, i as int, tmp@[i as int]);
                    lemma_update_lookup(old_kv, i as int, pair_view);
                }
                std::mem::swap(&mut tmp, &mut self.entries);
                proof {
                    lemma_jview_entries_update(before, i as int, self.entries@[i as int]);
                    lemma_update_lookup(old_kv, i as int, pair_view);
                    assert(self.kv() == old_kv.update(i as int, pair_view));
                    assert(self.keys() =~= old(self).keys());
                }
            }
            None => {
                let ghost before = self.entries@;
                let mut tmp: Vec<(String, JsonValue)> = Vec::new();
                std::mem::swap(&mut tmp, &mut self.entries);
                tmp.push((key, value));
                proof {
                    lemma_jview_entries_push(before, tmp@.last());
                    lemma_push_lookup(old_kv, pair_view);
                }
                std::mem::swap(&mut tmp, &mut self.entries);
                proof {
                    lemma_jview_entries_push(before, self.entries@.last());
                    lemma_push_lookup(old_kv, pair_view);
                    assert(self.keys() =~= old(self).keys().push(pair_view.0));
                }
            }
        }
    }

    pub fn insert_str(&mut self, key: &str, value: &str)
        ensures
            forall|q: Seq<char>| #[trigger] final(self).lookup(q) == if q == key@ {
                Some(JView::Str(value@))
            } else {
                old(self).lookup(q)
            },
    {
        self.insert(owned(key), JsonValue::Str(owned(value)));
    }

    pub fn insert_i64(&mut self, key: &str, value: i64)
        ensures
            forall|q: Seq<char>| #[trigger] final(self).lookup(q) == if q == key@ {
                Some(JView::Number(value as int, 0))
            } else {
                old(self).lookup(q)
            },
    {
        self.insert(owned(key), JsonValue::number(value));
    }

    /// Remove `key`, handing back its value.
    pub fn remove(&mut self, key: &str) -> (r: Option<JsonValue>)
        ensures
            match r {
                Some(v) => old(self).lookup(key@) == Some(jview(v)),
                None => old(self).lookup(key@) is None,
            },
            forall|q: Seq<char>| #[trigger] final(self).lookup(q) == if q == key@ {
                None
            } else {
                old(self).lookup(q)
            },
    {
        proof {
            use_type_invariant(&*self);
        }
        let ghost old_kv = self.kv();
        match self.find(key) {
            Some(i) => {
                let ghost before = self.entries@;
                let mut tmp: Vec<(String, JsonValue)> = Vec::new();
                std::mem::swap(&mut tmp, &mut self.entries);
                let removed = tmp.remove(i);
                proof {
                    lemma_jview_entries(before);
                    lemma_jview_entries(tmp@);
                    assert(jview_entries(tmp@) =~= old_kv.remove(i as int));
                    lemma_remove_lookup(old_kv, i as int);
                }
                std::mem::swap(&mut tmp, &mut self.entries);
                Some(removed.1)
            }
            None => None,
        }
    }

    /// Number of keys.
    pub fn len(&self) -> (r: usize)
        ensures
            r == self.kv().len(),
    {
        proof {
            lemma_jview_entries(self.entries@);
        }
        self.entries.len()
    }

    pub fn is_empty(&self) -> (r: bool)
        ensures
            r == (self.kv().len() == 0),
    {
        self.len() == 0
    }

    /// The pairs, in insertion order.
    pub fn entries(&self) -> (r: &Vec<(String, JsonValue)>)
        ensures
            jview_entries(r@) == self.kv(),
            distinct_keys(self.kv()),
    {
        proof {
            use_type_invariant(self);
        }
        &self.entries
    }

    /// Copy every pair of `other` in (its values win).
    pub fn merge(&mut self, other: &FlowData)
        ensures
            forall|q: Seq<char>| #[trigger] final(self).lookup(q) == if other.lookup(q) is Some {
                other.lookup(q)
            } else {
                old(self).lookup(q)
            },
    {
        proof {
            use_type_invariant(other);
            lemma_jview_entries(other.entries@);
        }
        let ghost okv = other.kv();
        let mut i: usize = 0;
        assert(okv.take(0) =~= Seq::<(Seq<char>, JView)>::empty());
        while i < other.entries.len()
            invariant
                0 <= i <= other.entries.len(),
                okv == other.kv(),
                okv == jview_entries(other.entries@),
                distinct_keys(okv),
                okv.len() == other.entries@.len(),
                forall|j: int| 0 <= j < other.entries@.len() ==> #[trigger] okv[j] == (other.entries@[j].0@, jview(other.entries@[j].1)),
                forall|q: Seq<char>| #[trigger] self.lookup(q) == if entry_lookup(okv.take(i as int), q) is Some {
                    entry_lookup(okv.take(i as int), q)
                } else {
                    old(self).lookup(q)
                },
            decreases other.entries.len() - i,
        {
            let k = other.entries[i].0.clone();
            let v = other.entries[i].1.dup();
            self.insert(k, v);
            proof {
                let t0 = okv.take(i as int);
                assert(okv.take(i + 1) =~= t0.push(okv[i as int]));
                assert(distinct_keys(t0));
                assert(forall|j: int| 0 <= j < t0.len() ==> t0[j].0 != okv[i as int].0);
                lemma_push_lookup(t0, okv[i as int]);
            }
            i = i + 1;
        }
        proof {
            assert(okv.take(other.entries.len() as int) =~= okv);
        }
    }

    /// Integer value of `key`, or `default`.
    pub fn get_i64_or(&self, key: &str, default: i64) -> (r: i64)
        ensures
            r == match self.lookup(key@) {
                Some(v) => match jview_as_i64(v) {
                    Some(n) => n,
                    None => default,
                },
                None => default,
            },
    {
        match self.get_i64(key) {
            Some(n) => n,
            None => default,
        }
    }

    /// String value of `key`, or `default`.
    pub fn get_str_or(&self, key: &str, default: &str) -> (r: String)
        ensures
            r@ == match self.lookup(key@) {
                Some(JView::Str(t)) => t,
                _ => default@,
            },
    {
        match self.get_str(key) {
            Some(s) => owned(s),
            None => owned(default),
        }
    }

    /// Keys that start with `prefix`, in insertion order.
    pub fn keys_with_prefix(&self, prefix: &str) -> (r: Vec<String>)
        ensures
            views(r@) == prefixed_keys(self.kv(), prefix@),
    {
        proof {
            lemma_jview_entries(self.entries@);
        }
        let mut out: Vec<String> = Vec::new();
        let mut i: usize = 0;
        while i < self.entries.len()
            invariant
                0 <= i <= self.entries.len(),
                jview_entries(self.entries@).len() == self.entries@.len(),
                forall|j: int| 0 <= j < self.entries@.len() ==> #[trigger] jview_entries(self.entries@)[j] == (self.entries@[j].0@, jview(self.entries@[j].1)),
                views(out@) == prefixed_keys(self.kv().take(i as int), prefix@),
            decreases self.entries.len() - i,
        {
            assert(self.kv().take(i + 1).drop_last() =~= self.kv().take(i as int));
            if has_prefix(self.entries[i].0.as_str(), prefix) {
                let ghost before = out@;
                out.push(self.entries[i].0.clone());
                assert(views(out@) =~= views(before).push(self.entries@[i as int].0@));
            }
            i = i + 1;
        }
        assert(self.kv().take(self.entries.len() as int) =~= self.kv());
        out
    }

    /// The pairs whose key starts with `prefix`.
    pub fn with_prefix(&self, prefix: &str) -> (r: FlowData)
        ensures
            forall|q: Seq<char>| #[trigger] r.lookup(q) == if starts_with(q, prefix@) {
                self.lookup(q)
            } else {
                None
            },
    {
        proof {
            use_type_invariant(self);
            lemma_jview_entries(self.entries@);
        }
        let ghost kv = self.kv();
        let mut out = FlowData::new();
        let mut i: usize = 0;
        assert(kv.take(0) =~= Seq::<(Seq<char>, JView)>::empty());
        while i < self.entries.len()
            invariant
                0 <= i <= self.entries.len(),
                kv == self.kv(),
                distinct_keys(kv),
                kv.len() == self.entries@.len(),
                forall|j: int| 0 <= j < self.entries@.len() ==> #[trigger] kv[j] == (self.entries@[j].0@, jview(self.entries@[j].1)),
                forall|q: Seq<char>| #[trigger] out.lookup(q) == if starts_with(q, prefix@) {
                    entry_lookup(kv.take(i as int), q)
                } else {
                    None
                },
            decreases self.entries.len() - i,
        {
            proof {
                let t0 = kv.take(i as int);
                assert(kv.take(i + 1) =~= t0.push(kv[i as int]));
                assert(distinct_keys(t0));
                assert(forall|j: int| 0 <= j < t0.len() ==> t0[j].0 != kv[i as int].0);
                lemma_push_lookup(t0, kv[i as int]);
            }
            if has_prefix(self.entries[i].0.as_str(), prefix) {
                out.insert(self.entries[i].0.clone(), self.entries[i].1.dup());
            }
            i = i + 1;
        }
        proof {
            assert(kv.take(self.entries.len() as int) =~= kv);
        }
        out
    }

    /// `f_` fields (form data).
    pub fn form_fields(&self) -> (r: FlowData)
        ensures
            forall|q: Seq<char>| #[trigger] r.lookup(q) == if starts_with(q, "f_"@) {
                self.lookup(q)
            } else {
                None
            },
    {
        self.with_prefix("f_")
    }

    /// `tf_` fields (task form data).
    pub fn task_form_fields(&self) -> (r: FlowData)
        ensures
            forall|q: Seq<char>| #[trigger] r.lookup(q) == if starts_with(q, "tf_"@) {
                self.lookup(q)
            } else {
                None
            },
    {
        self.with_prefix("tf_")
    }

    /// A copy with the same pairs.
    /// The pairs as one JSON object, in insertion order.
    pub fn json_string(&self) -> (r: String)
        ensures
            r@ == json_text(JView::Object(self.kv())),
    {
        let mut entries: Vec<(String, JsonValue)> = Vec::new();
        let mut i: usize = 0;
        proof {
            lemma_jview_entries(self.entries@);
        }
        while i < self.entries.len()
            invariant
                0 <= i <= self.entries.len(),
                jview_entries(entries@) == jview_entries(self.entries@.take(i as int)),
            decreases self.entries.len() - i,
        {
            let ghost before = entries@;
            entries.push((self.entries[i].0.clone(), self.entries[i].1.dup()));
            proof {
                lemma_jview_entries_push(before, entries@.last());
                assert(entries@ =~= before.push(entries@.last()));
                assert(self.entries@.take(i + 1) =~= self.entries@.take(i as int).push(self.entries@[i as int]));
                lemma_jview_entries_push(self.entries@.take(i as int), self.entries@[i as int]);
            }
            i = i + 1;
        }
        assert(self.entries@.take(self.entries.len() as int) =~= self.entries@);
        JsonValue::Object(entries).to_json_string()
    }

    pub fn dup(&self) -> (r: FlowData)
        ensures
            r.kv() == self.kv(),
    {
        proof {
            use_type_invariant(self);
        }
        let mut out: Vec<(String, JsonValue)> = Vec::new();
        let mut i: usize = 0;
        assert(self.entries@.take(0) =~= Seq::<(String, JsonValue)>::empty());
        while i < self.entries.len()
            invariant
                0 <= i <= self.entries.len(),
                distinct_keys(jview_entries(self.entries@)),
                jview_entries(out@) == jview_entries(self.entries@.take(i as int)),
            decreases self.entries.len() - i,
        {
            let k = self.entries[i].0.clone();
            let v = self.entries[i].1.dup();
            let ghost before = out@;
            out.push((k, v));
            proof {
                lemma_jview_entries_push(before, (k, v));
                assert(self.entries@.take(i + 1) =~= self.entries@.take(i as int).push(self.entries@[i as int]));
                lemma_jview_entries_push(self.entries@.take(i as int), self.entries@[i as int]);
            }
            i = i + 1;
        }
        assert(self.entries@.take(self.entries.len() as int) =~= self.entries@);
        FlowData { entries: out }
    }

    /// A bag from pairs; a later pair wins over an earlier one with the same key.
    pub fn from_pairs(pairs: &Vec<(String, JsonValue)>) -> (r: FlowData)
        ensures
            forall|q: Seq<char>| #[trigger] r.lookup(q) == last_lookup(jview_entries(pairs@), q),
    {
        proof {
            lemma_jview_entries(pairs@);
        }
        let ghost src = jview_entries(pairs@);
        let mut out = FlowData::new();
        let mut i: usize = 0;
        assert(src.take(0) =~= Seq::<(Seq<char>, JView)>::empty());
        while i < pairs.len()
            invariant
                0 <= i <= pairs.len(),
                src == jview_entries(pairs@),
                src.len() == pairs@.len(),
                forall|j: int| 0 <= j < pairs@.len() ==> #[trigger] src[j] == (pairs@[j].0@, jview(pairs@[j].1)),
                forall|q: Seq<char>| #[trigger] out.lookup(q) == last_lookup(src.take(i as int), q),
            decreases pairs.len() - i,
        {
            out.insert(pairs[i].0.clone(), pairs[i].1.dup());
            proof {
                assert(src.take(i + 1).drop_last() =~= src.take(i as int));
            }
            i = i + 1;
        }
        assert(src.take(pairs.len() as int) =~= src);
        out
    }
}
} // verus!
