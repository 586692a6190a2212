//! Character-level helpers over `String` / `&str`, stated over `Seq<char>` views.

use vstd::prelude::*;

verus! {

// ───────────────────────── spec vocabulary ─────────────────────────

/// Unicode `White_Space` (what `char::is_whitespace` and `str::trim` use).
pub open spec fn is_ws(c: char) -> bool {
    ||| c == '\t' || c == '\n' || c == '\u{0B}' || c == '\u{0C}' || c == '\r' || c == ' '
    ||| c == '\u{85}' || c == '\u{A0}' || c == '\u{1680}'
    ||| ('\u{2000}' <= c && c <= '\u{200A}')
    ||| c == '\u{2028}' || c == '\u{2029}' || c == '\u{202F}' || c == '\u{205F}' || c == '\u{3000}'
}

pub open spec fn trim_start(s: Seq<char>) -> Seq<char>
    decreases s.len(),
{
    if s.len() > 0 && is_ws(s[0]) {
        trim_start(s.drop_first())
    } else {
        s
    }
}

pub open spec fn trim_end(s: Seq<char>) -> Seq<char>
    decreases s.len(),
{
    if s.len() > 0 && is_ws(s.last()) {
        trim_end(s.drop_last())
    } else {
        s
    }
}

/// What `str::trim` leaves.
pub open spec fn trim(s: Seq<char>) -> Seq<char> {
    trim_end(trim_start(s))
}

pub open spec fn starts_with(s: Seq<char>, p: Seq<char>) -> bool {
    p.len() <= s.len() && s.take(p.len() as int) == p
}

pub open spec fn ends_with(s: Seq<char>, p: Seq<char>) -> bool {
    p.len() <= s.len() && s.skip(s.len() - p.len()) == p
}

/// `p` occurs in `s` at position `i`.
pub open spec fn occurs_at(s: Seq<char>, p: Seq<char>, i: int) -> bool {
    0 <= i && i + p.len() <= s.len() && s.subrange(i, i + p.len()) == p
}

/// `str::contains` with a string pattern.
pub open spec fn contains_sub(s: Seq<char>, p: Seq<char>) -> bool {
    exists|i: int| occurs_at(s, p, i)
}

/// The pieces of `str::split(sep)` for a single-character separator.
pub open spec fn split_on(s: Seq<char>, sep: char) -> Seq<Seq<char>>
    decreases s.len(),
{
    if s.len() == 0 {
        seq![Seq::<char>::empty()]
    } else {
        let prev = split_on(s.drop_last(), sep);
        if s.last() == sep {
            prev.push(Seq::<char>::empty())
        } else {
            prev.update(prev.len() - 1, prev.last().push(s.last()))
        }
    }
}

/// Each piece trimmed, empty pieces dropped.
pub open spec fn trimmed_nonempty(parts: Seq<Seq<char>>) -> Seq<Seq<char>>
    decreases parts.len(),
{
    if parts.len() == 0 {
        Seq::<Seq<char>>::empty()
    } else {
        let prev = trimmed_nonempty(parts.drop_last());
        let t = trim(parts.last());
        if t.len() == 0 {
            prev
        } else {
            prev.push(t)
        }
    }
}

/// `s.split(',').map(trim).filter(non-empty)` — the comma-list form used throughout.
pub open spec fn csv_items(s: Seq<char>) -> Seq<Seq<char>> {
    trimmed_nonempty(split_on(s, ','))
}

pub open spec fn views(v: Seq<String>) -> Seq<Seq<char>> {
    v.map_values(|x: String| x@)
}

/// Join with a separator.
pub open spec fn join(parts: Seq<Seq<char>>, sep: Seq<char>) -> Seq<char>
    decreases parts.len(),
{
    if parts.len() == 0 {
        Seq::<char>::empty()
    } else if parts.len() == 1 {
        parts[0]
    } else {
        join(parts.drop_last(), sep) + sep + parts.last()
    }
}

pub open spec fn is_ascii_digit(c: char) -> bool {
    '0' <= c && c <= '9'
}

pub open spec fn digit_val(c: char) -> int {
    (c as int) - ('0' as int)
}

/// Decimal digits of a natural number, most significant first (no leading zeros; `0` is "0").
pub open spec fn nat_digits(n: nat) -> Seq<char>
    decreases n,
{
    if n < 10 {
        seq![(('0' as nat) + n) as char]
    } else {
        nat_digits(n / 10).push((('0' as nat) + n % 10) as char)
    }
}

/// `i64::to_string` / `{}` formatting of an integer.
pub open spec fn int_text(n: int) -> Seq<char> {
    if n < 0 {
        seq!['-'] + nat_digits((-n) as nat)
    } else {
        nat_digits(n as nat)
    }
}

/// Value of a run of ASCII digits.
pub open spec fn digits_value(s: Seq<char>) -> int
    decreases s.len(),
{
    if s.len() == 0 {
        0
    } else {
        digits_value(s.drop_last()) * 10 + digit_val(s.last())
    }
}

pub open spec fn all_digits(s: Seq<char>) -> bool {
    forall|i: int| 0 <= i < s.len() ==> is_ascii_digit(#[trigger] s[i])
}

/// What `str::parse::<i64>` accepts and yields: an optional sign, then at least one ASCII digit,
/// within the `i64` range.
pub open spec fn parse_int(s: Seq<char>) -> Option<i64> {
    let neg = s.len() > 0 && s[0] == '-';
    let signed = s.len() > 0 && (s[0] == '-' || s[0] == '+');
    let body = if signed { s.drop_first() } else { s };
    if body.len() == 0 || !all_digits(body) {
        None
    } else {
        let v = if neg { -digits_value(body) } else { digits_value(body) };
        if i64::MIN <= v && v <= i64::MAX {
            Some(v as i64)
        } else {
            None
        }
    }
}

pub open spec fn ascii_upper(c: char) -> char {
    if 'a' <= c && c <= 'z' {
        ((c as int) - 32) as char
    } else {
        c
    }
}

pub open spec fn ascii_lower(c: char) -> char {
    if 'A' <= c && c <= 'Z' {
        ((c as int) + 32) as char
    } else {
        c
    }
}

pub open spec fn is_ascii_seq(s: Seq<char>) -> bool {
    forall|i: int| 0 <= i < s.len() ==> (#[trigger] s[i] as int) < 128
}

/// `str::eq_ignore_ascii_case`.
pub open spec fn eq_ignore_ascii_case(a: Seq<char>, b: Seq<char>) -> bool {
    a.len() == b.len() && forall|i: int| 0 <= i < a.len() ==> ascii_lower(#[trigger] a[i]) == ascii_lower(b[i])
}

/// What `str::to_uppercase` returns (full Unicode case mapping).
pub uninterp spec fn upper_text(s: Seq<char>) -> Seq<char>;

/// What `str::to_lowercase` returns (full Unicode case mapping).
pub uninterp spec fn lower_text(s: Seq<char>) -> Seq<char>;

/// The first character of `char::to_uppercase` (the character itself when the mapping is empty).
pub uninterp spec fn upper_first(c: char) -> char;

/// The first character of `char::to_lowercase`.
pub uninterp spec fn lower_first(c: char) -> char;

/// What `char::is_uppercase` answers.
pub uninterp spec fn is_upper_char(c: char) -> bool;

// ───────────────────────── std wrappers ─────────────────────────

/// `String::push`: appends one character.
#[verifier::external_body]
pub fn push_char(s: &mut String, c: char)
    ensures
        final(s)@ == old(s)@.push(c),
{
    s.push(c);
}

/// `str::to_uppercase`; on ASCII text it upper-cases `a`..`z` and keeps every other character.
#[verifier::external_body]
pub fn to_upper(s: &str) -> (r: String)
    ensures
        r@ == upper_text(s@),
        is_ascii_seq(s@) ==> r@ == s@.map_values(|c: char| ascii_upper(c)),
{
    s.to_uppercase()
}

/// `str::to_lowercase`; on ASCII text it lower-cases `A`..`Z` and keeps every other character.
#[verifier::external_body]
pub fn to_lower(s: &str) -> (r: String)
    ensures
        r@ == lower_text(s@),
        is_ascii_seq(s@) ==> r@ == s@.map_values(|c: char| ascii_lower(c)),
{
    s.to_lowercase()
}

/// `char::to_uppercase().next()` (falling back to `c`); ASCII maps `a`..`z` up, keeps the rest.
#[verifier::external_body]
pub fn char_upper_first(c: char) -> (r: char)
    ensures
        r == upper_first(c),
        (c as int) < 128 ==> r == ascii_upper(c),
{
    c.to_uppercase().next().unwrap_or(c)
}

/// `char::to_lowercase().next()` (falling back to `c`); ASCII maps `A`..`Z` down, keeps the rest.
#[verifier::external_body]
pub fn char_lower_first(c: char) -> (r: char)
    ensures
        r == lower_first(c),
        (c as int) < 128 ==> r == ascii_lower(c),
{
    c.to_lowercase().next().unwrap_or(c)
}

/// `char::is_uppercase`; on ASCII it is exactly `A`..`Z`.
#[verifier::external_body]
pub fn char_is_upper(c: char) -> (r: bool)
    ensures
        r == is_upper_char(c),
        (c as int) < 128 ==> (r <==> ('A' <= c && c <= 'Z')),
{
    c.is_uppercase()
}

// ───────────────────────── verified helpers ─────────────────────────

/// The characters of `s`, in order.
pub fn chars_of(s: &str) -> (v: Vec<char>)
    ensures
        v@ == s@,
{
    let mut v: Vec<char> = Vec::new();
    for c in it: s.chars()
        invariant
            v@ == it.seq().take(it.index() as int),
            it.seq() == s@,
    {
        v.push(c);
    }
    v
}

/// A `String` holding `v[lo..hi]`.
pub fn string_of_range(v: &Vec<char>, lo: usize, hi: usize) -> (s: String)
    requires
        lo <= hi <= v.len(),
    ensures
        s@ == v@.subrange(lo as int, hi as int),
{
    let mut s = String::new();
    let mut i = lo;
    while i < hi
        invariant
            lo <= i <= hi <= v.len(),
            s@ == v@.subrange(lo as int, i as int),
        decreases hi - i,
    {
        push_char(&mut s, v[i]);
        i = i + 1;
        assert(s@ =~= v@.subrange(lo as int, i as int));
    }
    s
}

/// A `String` holding the characters of `v`.
pub fn string_of(v: &Vec<char>) -> (s: String)
    ensures
        s@ == v@,
{
    let s = string_of_range(v, 0, v.len());
    assert(v@.subrange(0, v@.len() as int) =~= v@);
    s
}

/// Copy of `s` as an owned `String`.
pub fn owned(s: &str) -> (r: String)
    ensures
        r@ == s@,
{
    s.to_owned()
}

/// Append all of `t` to `s`.
pub fn push_str(s: &mut String, t: &str)
    ensures
        final(s)@ == old(s)@ + t@,
{
    let v = chars_of(t);
    let ghost s0 = s@;
    let mut i: usize = 0;
    while i < v.len()
        invariant
            0 <= i <= v.len(),
            v@ == t@,
            s@ == s0 + v@.take(i as int),
        decreases v.len() - i,
    {
        push_char(s, v[i]);
        i = i + 1;
        assert(s@ =~= s0 + v@.take(i as int));
    }
    assert(v@.take(v.len() as int) =~= v@);
}

/// `a == b` on text.
pub fn str_eq(a: &str, b: &str) -> (r: bool)
    ensures
        r == (a@ == b@),
{
    let x = chars_of(a);
    let y = chars_of(b);
    seq_eq(&x, &y)
}

pub fn seq_eq(x: &Vec<char>, y: &Vec<char>) -> (r: bool)
    ensures
        r == (x@ == y@),
{
    if x.len() != y.len() {
        return false;
    }
    let mut i: usize = 0;
    while i < x.len()
        invariant
            x.len() == y.len(),
            0 <= i <= x.len(),
            forall|j: int| 0 <= j < i ==> x@[j] == y@[j],
        decreases x.len() - i,
    {
        if x[i] != y[i] {
            return false;
        }
        i = i + 1;
    }
    assert(x@ =~= y@);
    true
}

/// `s.starts_with(p)`.
pub fn has_prefix(s: &str, p: &str) -> (r: bool)
    ensures
        r == starts_with(s@, p@),
{
    let x = chars_of(s);
    let y = chars_of(p);
    if y.len() > x.len() {
        return false;
    }
    let mut i: usize = 0;
    while i < y.len()
        invariant
            y.len() <= x.len(),
            x@ == s@,
            y@ == p@,
            0 <= i <= y.len(),
            forall|j: int| 0 <= j < i ==> x@[j] == y@[j],
        decreases y.len() - i,
    {
        if x[i] != y[i] {
            assert(x@.take(y@.len() as int)[i as int] != y@[i as int]);
            assert(x@.take(y@.len() as int) != y@);
            return false;
        }
        i = i + 1;
    }
    assert(x@.take(y@.len() as int) =~= y@);
    true
}

/// `s.ends_with(p)`.
pub fn has_suffix(s: &str, p: &str) -> (r: bool)
    ensures
        r == ends_with(s@, p@),
{
    let x = chars_of(s);
    let y = chars_of(p);
    if y.len() > x.len() {
        return false;
    }
    let off = x.len() - y.len();
    let mut i: usize = 0;
    while i < y.len()
        invariant
            y.len() <= x.len(),
            off == x.len() - y.len(),
            x@ == s@,
            y@ == p@,
            0 <= i <= y.len(),
            forall|j: int| 0 <= j < i ==> x@[off + j] == y@[j],
        decreases y.len() - i,
    {
        if x[off + i] != y[i] {
            assert(x@.skip(off as int)[i as int] != y@[i as int]);
            assert(x@.skip(off as int) != y@);
            return false;
        }
        i = i + 1;
    }
    assert(x@.skip(off as int) =~= y@);
    true
}

/// Does `p` occur in `x` at `i`?
fn occurs_at_exec(x: &Vec<char>, y: &Vec<char>, i: usize) -> (r: bool)
    requires
        i + y.len() <= x.len(),
    ensures
        r == occurs_at(x@, y@, i as int),
{
    let mut j: usize = 0;
    while j < y.len()
        invariant
            i + y.len() <= x.len(),
            0 <= j <= y.len(),
            forall|k: int| 0 <= k < j ==> x@[i + k] == y@[k],
        decreases y.len() - j,
    {
        if x[i + j] != y[j] {
            assert(x@.subrange(i as int, i + y.len())[j as int] != y@[j as int]);
            return false;
        }
        j = j + 1;
    }
    assert(x@.subrange(i as int, i + y.len()) =~= y@);
    true
}

/// `s.contains(p)`.
pub fn has_sub(s: &str, p: &str) -> (r: bool)
    ensures
        r == contains_sub(s@, p@),
{
    let x = chars_of(s);
    let y = chars_of(p);
    if y.len() > x.len() {
        return false;
    }
    if y.len() == 0 {
        assert(x@.subrange(0, 0) =~= y@);
        assert(occurs_at(x@, y@, 0));
        return true;
    }
    let mut i: usize = 0;
    let last = x.len() - y.len();
    while i <= last
        invariant
            y.len() <= x.len(),
            last == x.len() - y.len(),
            y.len() >= 1,
            i <= last + 1,
            x@ == s@,
            y@ == p@,
            forall|k: int| 0 <= k < i ==> !occurs_at(x@, y@, k),
        decreases last + 1 - i,
    {
        if occurs_at_exec(&x, &y, i) {
            return true;
        }
        i = i + 1;
    }
    assert forall|k: int| !occurs_at(x@, y@, k) by {
        if 0 <= k < i {
        }
    }
    false
}

proof fn lemma_trim_start_skip(s: Seq<char>, i: int)
    requires
        0 <= i <= s.len(),
        forall|j: int| 0 <= j < i ==> is_ws(#[trigger] s[j]),
    ensures
        trim_start(s) == trim_start(s.skip(i)),
    decreases i,
{
    if i > 0 {
        assert(s.drop_first().skip(i - 1) =~= s.skip(i));
        lemma_trim_start_skip(s.drop_first(), i - 1);
    } else {
        assert(s.skip(0) =~= s);
    }
}

proof fn lemma_trim_end_take(s: Seq<char>, i: int)
    requires
        0 <= i <= s.len(),
        forall|j: int| i <= j < s.len() ==> is_ws(#[trigger] s[j]),
    ensures
        trim_end(s) == trim_end(s.take(i)),
    decreases s.len() - i,
{
    if i < s.len() {
        assert(s.drop_last().take(i) =~= s.take(i));
        lemma_trim_end_take(s.drop_last(), i);
    } else {
        assert(s.take(i) =~= s);
    }
}

/// `s.trim()` on a character vector.
pub fn trim_vec(v: &Vec<char>) -> (r: String)
    ensures
        r@ == trim(v@),
{
    let mut lo: usize = 0;
    while lo < v.len() && is_ws_exec(v[lo])
        invariant
            0 <= lo <= v.len(),
            forall|j: int| 0 <= j < lo ==> is_ws(#[trigger] v@[j]),
        decreases v.len() - lo,
    {
        lo = lo + 1;
    }
    proof {
        lemma_trim_start_skip(v@, lo as int);
    }
    let mut hi: usize = v.len();
    while hi > lo && is_ws_exec(v[hi - 1])
        invariant
            lo <= hi <= v.len(),
            forall|j: int| hi <= j < v.len() ==> is_ws(#[trigger] v@[j]),
        decreases hi,
    {
        hi = hi - 1;
    }
    proof {
        let t = v@.skip(lo as int);
        assert(lo == v.len() || !is_ws(t[0]));
        assert(trim_start(t) == t);
        assert forall|j: int| hi - lo <= j < t.len() implies is_ws(#[trigger] t[j]) by {
            assert(t[j] == v@[lo + j]);
        }
        lemma_trim_end_take(t, hi - lo);
        let u = t.take(hi - lo);
        assert(u =~= v@.subrange(lo as int, hi as int));
        assert(hi == lo || !is_ws(u.last()));
        assert(trim_end(u) == u);
    }
    string_of_range(v, lo, hi)
}

/// `s.trim()`.
pub fn trim_str(s: &str) -> (r: String)
    ensures
        r@ == trim(s@),
{
    let v = chars_of(s);
    trim_vec(&v)
}

/// `char::is_whitespace`.
pub fn is_ws_exec(c: char) -> (r: bool)
    ensures
        r == is_ws(c),
{
    c == '\t' || c == '\n' || c == '\u{0B}' || c == '\u{0C}' || c == '\r' || c == ' ' || c
        == '\u{85}' || c == '\u{A0}' || c == '\u{1680}' || ('\u{2000}' <= c && c <= '\u{200A}')
        || c == '\u{2028}' || c == '\u{2029}' || c == '\u{202F}' || c == '\u{205F}' || c
        == '\u{3000}'
}

/// `s.split(sep)` into owned pieces.
pub fn split_char(s: &str, sep: char) -> (r: Vec<String>)
    ensures
        views(r@) == split_on(s@, sep),
{
    let v = chars_of(s);
    let mut out: Vec<String> = Vec::new();
    let mut start: usize = 0;
    let mut i: usize = 0;
    assert(v@.take(0) =~= Seq::<char>::empty());
    assert(split_on(Seq::<char>::empty(), sep) == seq![Seq::<char>::empty()]);
    assert(views(out@) =~= Seq::<Seq<char>>::empty());
    assert(views(out@).push(v@.subrange(0, 0)) =~= split_on(v@.take(0), sep));
    while i < v.len()
        invariant
            v@ == s@,
            0 <= start <= i <= v.len(),
            views(out@).push(v@.subrange(start as int, i as int)) == split_on(v@.take(i as int), sep),
        decreases v.len() - i,
    {
        let ghost pre = v@.take(i as int);
        assert(v@.take(i + 1).drop_last() =~= pre);
        if v[i] == sep {
            let piece = string_of_range(&v, start, i);
            let ghost before = out@;
            out.push(piece);
            start = i + 1;
            i = i + 1;
            assert(views(out@) =~= views(before).push(piece@));
            assert(v@.subrange(start as int, i as int) =~= Seq::<char>::empty());
            assert(views(out@).push(v@.subrange(start as int, i as int)) =~= split_on(v@.take(i as int), sep));
        } else {
            i = i + 1;
            assert(v@.subrange(start as int, i as int) =~= v@.subrange(start as int, i - 1).push(v@[i - 1]));
            assert(views(out@).push(v@.subrange(start as int, i as int)) =~= split_on(v@.take(i as int), sep));
        }
    }
    let last = string_of_range(&v, start, v.len());
    let ghost before = out@;
    out.push(last);
    assert(v@.take(v.len() as int) =~= v@);
    assert(views(out@) =~= views(before).push(last@));
    out
}

/// `s.split(',').map(|x| x.trim().to_string()).filter(|x| !x.is_empty())`.
pub fn split_csv(s: &str) -> (r: Vec<String>)
    ensures
        views(r@) == csv_items(s@),
{
    let parts = split_char(s, ',');
    let mut out: Vec<String> = Vec::new();
    let mut i: usize = 0;
    while i < parts.len()
        invariant
            0 <= i <= parts.len(),
            views(parts@) == split_on(s@, ','),
            views(out@) == trimmed_nonempty(views(parts@).take(i as int)),
        decreases parts.len() - i,
    {
        let t = trim_str(parts[i].as_str());
        assert(views(parts@).take(i + 1).drop_last() =~= views(parts@).take(i as int));
        assert(views(parts@).take(i + 1).last() == parts@[i as int]@);
        if !t.as_str().is_empty() {
            let ghost before = out@;
            out.push(t);
            assert(views(out@) =~= views(before).push(t@));
        }
        i = i + 1;
    }
    assert(views(parts@).take(parts.len() as int) =~= views(parts@));
    out
}

/// Digits of a `u64`, most significant first.
pub fn u64_text(n: u64) -> (r: String)
    ensures
        r@ == nat_digits(n as nat),
    decreases n,
{
    if n < 10 {
        let mut s = String::new();
        push_char(&mut s, digit_char(n as u8));
        assert(s@ =~= nat_digits(n as nat));
        s
    } else {
        let mut s = u64_text(n / 10);
        push_char(&mut s, digit_char((n % 10) as u8));
        s
    }
}

fn digit_char(d: u8) -> (c: char)
    requires
        d < 10,
    ensures
        c == (('0' as nat) + d) as char,
{
    if d == 0 { '0' }
    else if d == 1 { '1' }
    else if d == 2 { '2' }
    else if d == 3 { '3' }
    else if d == 4 { '4' }
    else if d == 5 { '5' }
    else if d == 6 { '6' }
    else if d == 7 { '7' }
    else if d == 8 { '8' }
    else { '9' }
}

/// `n.to_string()` for a `usize`.
pub fn usize_text(n: usize) -> (r: String)
    ensures
        r@ == nat_digits(n as nat),
{
    u64_text(n as u64)
}

/// `n.to_string()` for an `i64`.
pub fn i64_text(n: i64) -> (r: String)
    ensures
        r@ == int_text(n as int),
{
    if n < 0 {
        let m: u64 = if n == i64::MIN {
            9223372036854775808u64
        } else {
            (-n) as u64
        };
        let d = u64_text(m);
        let mut s = String::new();
        push_char(&mut s, '-');
        push_str(&mut s, d.as_str());
        assert(s@ =~= seq!['-'] + nat_digits((-(n as int)) as nat));
        s
    } else {
        u64_text(n as u64)
    }
}

fn digit_value_exec(c: char) -> (r: u64)
    requires
        is_ascii_digit(c),
    ensures
        r == digit_val(c),
{
    let v: u32 = c as u32;
    assert(v == c as int);
    (v - 48) as u64
}

/// `s.parse::<i64>().ok()`.
pub fn parse_i64(s: &str) -> (r: Option<i64>)
    ensures
        r == parse_int(s@),
{
    let v = chars_of(s);
    let neg = v.len() > 0 && v[0] == '-';
    let signed = v.len() > 0 && (v[0] == '-' || v[0] == '+');
    let start: usize = if signed { 1 } else { 0 };
    let ghost body = if signed { v@.drop_first() } else { v@ };
    assert(body =~= v@.skip(start as int));
    if start >= v.len() {
        assert(body.len() == 0);
        return None;
    }
    // accumulate magnitude up to 2^63
    let limit: u64 = 9223372036854775808u64;
    let mut acc: u64 = 0;
    let mut i: usize = start;
    while i < v.len()
        invariant
            start <= i <= v.len(),
            body =~= v@.skip(start as int),
            all_digits(v@.subrange(start as int, i as int)),
            acc as int == digits_value(v@.subrange(start as int, i as int)),
            acc <= limit,
            limit == 9223372036854775808u64,
            signed == (v@.len() > 0 && (v@[0] == '-' || v@[0] == '+')),
            neg == (v@.len() > 0 && v@[0] == '-'),
            start == (if signed { 1usize } else { 0usize }),
            body == (if signed { v@.drop_first() } else { v@ }),
            v@ == s@,
        decreases v.len() - i,
    {
        let c = v[i];
        if !('0' <= c && c <= '9') {
            assert(body[i - start] == c);
            assert(!is_ascii_digit(body[i - start]));
            assert(!all_digits(body));
            return None;
        }
        let d = digit_value_exec(c);
        assert(v@.subrange(start as int, i + 1).drop_last() =~= v@.subrange(start as int, i as int));
        if acc > (limit - d) / 10 {
            // magnitude exceeds 2^63 from here on: the value is out of range whatever follows
            proof {
                lemma_digits_value_grows(v@.subrange(start as int, i + 1), body);
            }
            let ghost cur = v@.subrange(start as int, i + 1);
            assert(digits_value(cur) == acc * 10 + d);
            assert(digits_value(cur) > limit) by (nonlinear_arith)
                requires acc > (limit - d) / 10, digits_value(cur) == acc * 10 + d, d <= 9, limit == 9223372036854775808u64;
            // all remaining chars must be digits for a Some; either way the result is None
            let r = parse_tail_none(&v, i + 1, start, Ghost(body), Ghost(neg));
            return r;
        }
        acc = acc * 10 + d;
        i = i + 1;
        assert(all_digits(v@.subrange(start as int, i as int)));
    }
    assert(v@.subrange(start as int, v.len() as int) =~= body);
    if neg {
        if acc == limit {
            Some(i64::MIN)
        } else {
            Some(-(acc as i64))
        }
    } else {
        if acc >= limit {
            None
        } else {
            Some(acc as i64)
        }
    }
}

proof fn lemma_digits_value_grows(prefix: Seq<char>, s: Seq<char>)
    requires
        all_digits(prefix),
    ensures
        digits_value(prefix) >= 0,
    decreases prefix.len(),
{
    if prefix.len() > 0 {
        assert(all_digits(prefix.drop_last()));
        lemma_digits_value_grows(prefix.drop_last(), s);
    }
}

proof fn lemma_digits_value_mono(a: Seq<char>, n: int)
    requires
        all_digits(a),
        0 <= n <= a.len(),
    ensures
        digits_value(a) >= digits_value(a.take(n)),
    decreases a.len() - n,
{
    if n < a.len() {
        assert(a.drop_last().take(n) =~= a.take(n));
        assert(all_digits(a.drop_last()));
        lemma_digits_value_mono(a.drop_last(), n);
        lemma_digits_value_grows(a.drop_last(), a);
        assert(digits_value(a) == digits_value(a.drop_last()) * 10 + digit_val(a.last()));
    } else {
        assert(a.take(n) =~= a);
    }
}

/// Once the magnitude prefix already exceeds `2^63`, no digit string extending it parses.
fn parse_tail_none(v: &Vec<char>, from: usize, start: usize, Ghost(body): Ghost<Seq<char>>, Ghost(neg): Ghost<bool>) -> (r: Option<i64>)
    requires
        start < from <= v.len(),
        body =~= v@.skip(start as int),
        all_digits(v@.subrange(start as int, from as int)),
        digits_value(v@.subrange(start as int, from as int)) > 9223372036854775808u64,
        body == (if v@.len() > 0 && (v@[0] == '-' || v@[0] == '+') { v@.drop_first() } else { v@ }),
        neg == (v@.len() > 0 && v@[0] == '-'),
    ensures
        r == parse_int(v@),
{
    let mut i = from;
    while i < v.len()
        invariant
            start < from <= i <= v.len(),
            body =~= v@.skip(start as int),
            body == (if v@.len() > 0 && (v@[0] == '-' || v@[0] == '+') { v@.drop_first() } else { v@ }),
            all_digits(v@.subrange(start as int, i as int)),
        decreases v.len() - i,
    {
        if !('0' <= v[i] && v[i] <= '9') {
            assert(body[i - start] == v@[i as int]);
            assert(!is_ascii_digit(body[i - start]));
            assert(!all_digits(body));
            return None;
        }
        i = i + 1;
        assert(all_digits(v@.subrange(start as int, i as int)));
    }
    proof {
        assert(v@.subrange(start as int, v.len() as int) =~= body);
        assert(body.take(from - start) =~= v@.subrange(start as int, from as int));
        lemma_digits_value_mono(body, from - start);
        assert(all_digits(body));
        assert(body.len() > 0);
    }
    None
}


// ───────────────────────── ordering ─────────────────────────

/// `a < b` for strings: lexicographic by code point (the order of their UTF-8 bytes).
pub open spec fn text_lt(a: Seq<char>, b: Seq<char>) -> bool
    decreases a.len(),
{
    if b.len() == 0 {
        false
    } else if a.len() == 0 {
        true
    } else if a[0] != b[0] {
        a[0] < b[0]
    } else {
        text_lt(a.drop_first(), b.drop_first())
    }
}

pub open spec fn text_le(a: Seq<char>, b: Seq<char>) -> bool {
    text_lt(a, b) || a == b
}

proof fn lemma_text_lt_step(a: Seq<char>, b: Seq<char>, i: int)
    requires
        0 <= i < a.len(),
        i < b.len(),
        a[i] == b[i],
    ensures
        text_lt(a.skip(i), b.skip(i)) == text_lt(a.skip(i + 1), b.skip(i + 1)),
{
    assert(a.skip(i).drop_first() =~= a.skip(i + 1));
    assert(b.skip(i).drop_first() =~= b.skip(i + 1));
}

/// `a < b` on strings.
pub fn str_lt(a: &str, b: &str) -> (r: bool)
    ensures
        r == text_lt(a@, b@),
{
    let x = chars_of(a);
    let y = chars_of(b);
    let mut i: usize = 0;
    assert(x@.skip(0) =~= x@);
    assert(y@.skip(0) =~= y@);
    while i < x.len() && i < y.len()
        invariant
            x@ == a@,
            y@ == b@,
            0 <= i <= x.len(),
            i <= y.len(),
            text_lt(a@, b@) == text_lt(x@.skip(i as int), y@.skip(i as int)),
        decreases x.len() - i,
    {
        if x[i] != y[i] {
            assert(x@.skip(i as int)[0] == x@[i as int]);
            assert(y@.skip(i as int)[0] == y@[i as int]);
            assert(x@.skip(i as int).len() > 0 && y@.skip(i as int).len() > 0);
            let r = x[i] < y[i];
            return r;
        }
        proof {
            lemma_text_lt_step(x@, y@, i as int);
        }
        i = i + 1;
    }
    i < y.len()
}

/// `a <= b` on strings.
pub fn str_le(a: &str, b: &str) -> (r: bool)
    ensures
        r == text_le(a@, b@),
{
    str_lt(a, b) || str_eq(a, b)
}


pub proof fn lemma_text_lt_irrefl(a: Seq<char>)
    ensures
        !text_lt(a, a),
    decreases a.len(),
{
    if a.len() > 0 {
        lemma_text_lt_irrefl(a.drop_first());
    }
}

pub proof fn lemma_text_lt_trans(a: Seq<char>, b: Seq<char>, c: Seq<char>)
    requires
        text_lt(a, b),
        text_lt(b, c),
    ensures
        text_lt(a, c),
    decreases a.len(),
{
    if a.len() > 0 && b.len() > 0 && c.len() > 0 && a[0] == b[0] && b[0] == c[0] {
        lemma_text_lt_trans(a.drop_first(), b.drop_first(), c.drop_first());
    }
}

pub proof fn lemma_text_lt_total(a: Seq<char>, b: Seq<char>)
    ensures
        text_lt(a, b) || text_lt(b, a) || a == b,
    decreases a.len(),
{
    if a.len() > 0 && b.len() > 0 && a[0] == b[0] {
        lemma_text_lt_total(a.drop_first(), b.drop_first());
        if a.drop_first() == b.drop_first() {
            assert(a =~= seq![a[0]] + a.drop_first());
            assert(b =~= seq![b[0]] + b.drop_first());
        }
    } else if a.len() == 0 && b.len() == 0 {
        assert(a =~= b);
    }
}

pub proof fn lemma_text_lt_asym(a: Seq<char>, b: Seq<char>)
    requires
        text_lt(a, b),
    ensures
        !text_lt(b, a),
        a != b,
{
    lemma_text_lt_irrefl(a);
    if text_lt(b, a) {
        lemma_text_lt_trans(a, b, a);
    }
}

/// Non-decreasing in string order.
pub open spec fn sorted_text(s: Seq<Seq<char>>) -> bool {
    forall|i: int, j: int| 0 <= i < j < s.len() ==> text_le(#[trigger] s[i], #[trigger] s[j])
}

/// The strings sorted in string order (`slice::sort` on `String`s).
pub fn sort_strings(v: &[String]) -> (r: Vec<String>)
    ensures
        sorted_text(views(r@)),
        views(r@).to_multiset() == views(v@).to_multiset(),
{
    broadcast use vstd::seq_lib::group_to_multiset_ensures;
    let mut out: Vec<String> = Vec::new();
    let mut i: usize = 0;
    assert(views(out@) =~= Seq::<Seq<char>>::empty());
    assert(views(v@).take(0) =~= Seq::<Seq<char>>::empty());
    while i < v.len()
        invariant
            0 <= i <= v.len(),
            sorted_text(views(out@)),
            views(out@).to_multiset() == views(v@).take(i as int).to_multiset(),
        decreases v.len() - i,
    {
        let x = v[i].as_str();
        let mut p: usize = 0;
        while p < out.len() && str_le(out[p].as_str(), x)
            invariant
                0 <= p <= out.len(),
                forall|j: int| 0 <= j < p ==> text_le(#[trigger] views(out@)[j], x@),
            decreases out.len() - p,
        {
            p = p + 1;
        }
        let ghost before = views(out@);
        proof {
            if p < out.len() {
                assert(!text_le(before[p as int], x@));
                lemma_text_lt_total(before[p as int], x@);
                assert forall|j: int| p <= j < before.len() implies text_lt(x@, #[trigger] before[j]) by {
                    if j > p {
                        assert(text_le(before[p as int], before[j]));
                        if text_lt(before[p as int], before[j]) {
                            lemma_text_lt_trans(x@, before[p as int], before[j]);
                        }
                    }
                }
            }
        }
        out.insert(p, owned(x));
        proof {
            assert(views(out@) =~= before.insert(p as int, x@));
            let after = views(out@);
            assert forall|a: int, b: int| 0 <= a < b < after.len() implies text_le(#[trigger] after[a], #[trigger] after[b]) by {
                if b < p {
                    assert(after[a] == before[a] && after[b] == before[b]);
                } else if b == p {
                    assert(after[a] == before[a]);
                } else if a == p {
                    assert(after[b] == before[b - 1]);
                } else if a < p {
                    assert(after[a] == before[a] && after[b] == before[b - 1]);
                    assert(text_le(before[a], x@));
                    assert(text_lt(x@, before[b - 1]));
                    if text_lt(before[a], x@) {
                        lemma_text_lt_trans(before[a], x@, before[b - 1]);
                    }
                } else {
                    assert(after[a] == before[a - 1] && after[b] == before[b - 1]);
                }
            }
            vstd::seq_lib::to_multiset_insert(before, p as int, x@);
            assert(views(v@)[i as int] == x@);
            assert(views(v@).take(i + 1) =~= views(v@).take(i as int).push(x@));
            vstd::seq_lib::to_multiset_build(views(v@).take(i as int), x@);
            assert(views(out@).to_multiset() == before.to_multiset().insert(x@));
        }
        i = i + 1;
    }
    assert(views(v@).take(v.len() as int) =~= views(v@));
    out
}


fn same_ignoring_ascii_case(a: char, b: char) -> (r: bool)
    ensures
        r == (ascii_lower(a) == ascii_lower(b)),
{
    let x: u32 = a as u32;
    let y: u32 = b as u32;
    assert(x as int == a as int && y as int == b as int);
    let lx: u32 = if 65 <= x && x <= 90 { x + 32 } else { x };
    let ly: u32 = if 65 <= y && y <= 90 { y + 32 } else { y };
    assert(lx as int == ascii_lower(a) as int);
    assert(ly as int == ascii_lower(b) as int);
    lx == ly
}

/// `a.eq_ignore_ascii_case(b)`.
pub fn str_eq_ignore_ascii_case(a: &str, b: &str) -> (r: bool)
    ensures
        r == eq_ignore_ascii_case(a@, b@),
{
    let x = chars_of(a);
    let y = chars_of(b);
    if x.len() != y.len() {
        return false;
    }
    let mut i: usize = 0;
    while i < x.len()
        invariant
            x@ == a@,
            y@ == b@,
            x.len() == y.len(),
            0 <= i <= x.len(),
            forall|j: int| 0 <= j < i ==> ascii_lower(#[trigger] a@[j]) == ascii_lower(b@[j]),
        decreases x.len() - i,
    {
        if !same_ignoring_ascii_case(x[i], y[i]) {
            return false;
        }
        i = i + 1;
    }
    true
}


/// `v.join(sep)`.
pub fn join_with(v: &[String], sep: &str) -> (r: String)
    ensures
        r@ == join(views(v@), sep@),
{
    let mut out = String::new();
    let mut i: usize = 0;
    while i < v.len()
        invariant
            0 <= i <= v.len(),
            out@ == join(views(v@).take(i as int), sep@),
        decreases v.len() - i,
    {
        let ghost prev = views(v@).take(i as int);
        assert(views(v@).take(i + 1).drop_last() =~= prev);
        assert(views(v@).take(i + 1).last() == v@[i as int]@);
        if i > 0 {
            push_str(&mut out, sep);
        }
        push_str(&mut out, v[i].as_str());
        proof {
            if i == 0 {
                assert(views(v@).take(1)[0] == v@[0]@);
                assert(out@ =~= join(views(v@).take(1), sep@));
            }
        }
        i = i + 1;
    }
    assert(views(v@).take(v.len() as int) =~= views(v@));
    out
}


/// Position of the first occurrence of `p` in `s` at or after `i`, or `-1`.
pub open spec fn occ_from(s: Seq<char>, p: Seq<char>, i: int) -> int
    decreases s.len() + 1 - i,
{
    if i < 0 || i + p.len() > s.len() {
        -1
    } else if occurs_at(s, p, i) {
        i
    } else {
        occ_from(s, p, i + 1)
    }
}

/// `str::find` with a string pattern: the first occurrence, or `-1`.
pub open spec fn first_occ(s: Seq<char>, p: Seq<char>) -> int {
    occ_from(s, p, 0)
}

pub proof fn lemma_occ_from_bounds(s: Seq<char>, p: Seq<char>, i: int)
    ensures
        occ_from(s, p, i) == -1 || (i <= occ_from(s, p, i) && occ_from(s, p, i) + p.len() <= s.len()
            && occurs_at(s, p, occ_from(s, p, i))),
    decreases s.len() + 1 - i,
{
    if i >= 0 && i + p.len() <= s.len() && !occurs_at(s, p, i) {
        lemma_occ_from_bounds(s, p, i + 1);
    }
}

/// The first occurrence of `y` in `x` at or after `from`.
pub fn find_sub_from(x: &Vec<char>, y: &Vec<char>, from: usize) -> (r: Option<usize>)
    ensures
        match r {
            Some(i) => i as int == occ_from(x@, y@, from as int) && i + y@.len() <= x@.len(),
            None => occ_from(x@, y@, from as int) == -1,
        },
    decreases x.len() + 1 - from,
{
    if from > x.len() || y.len() > x.len() - from {
        return None;
    }
    if occurs_at_exec(x, y, from) {
        return Some(from);
    }
    assert(y@.len() > 0) by {
        if y@.len() == 0 {
            assert(x@.subrange(from as int, from as int) =~= y@);
        }
    }
    find_sub_from(x, y, from + 1)
}

} // verus!
