//! The rules behind the facade's actions: reading action arguments, define versions, paging
//! and filtering of result rows, and the engine calls an action makes.

use vstd::prelude::*;
use crate::error::{JeeflowError, JeeflowResult};
use crate::filter_sql::{op_matches, op_holds};
use crate::json::{json_text, jview, FlowData, JView, JsonValue};
use crate::model::{opt_view, DefineRow, ProcessTask, QueryFilter};
use crate::text::{int_text, nat_digits, owned, parse_int, push_str, split_csv, str_eq, views, csv_items};

verus! {

// ─────────────── arguments ───────────────

/// A text argument.
pub fn arg_str(args: &FlowData, key: &str) -> (r: Option<String>)
    ensures
        opt_view(r) == crate::json::jview_as_str_opt(args.lookup(key@)),
{
    match args.get_str(key) {
        Some(s) => Some(owned(s)),
        None => None,
    }
}

/// A text argument, or `default`.
pub fn arg_str_or(args: &FlowData, key: &str, default: &str) -> (r: String)
    ensures
        r@ == match crate::json::jview_as_str_opt(args.lookup(key@)) {
            Some(t) => t,
            None => default@,
        },
{
    match args.get_str(key) {
        Some(s) => owned(s),
        None => owned(default),
    }
}

pub open spec fn illegal_id_msg(t: Seq<char>) -> Seq<char> {
    "非法id: "@ + t
}

/// An id argument: an integral number, or a text that reads as one; anything else is an
/// illegal id (the message shows the text, or the value's JSON text).
pub open spec fn arg_i64_spec(v: Option<JView>) -> Result<Option<i64>, Seq<char>> {
    match v {
        None => Ok(None),
        Some(JView::Number(m, s)) => if s == 0 && i64::MIN <= m <= i64::MAX {
            Ok(Some(m as i64))
        } else {
            Err(illegal_id_msg(json_text(JView::Number(m, s))))
        },
        Some(JView::Str(t)) => match parse_int(t) {
            Some(n) => Ok(Some(n)),
            None => Err(illegal_id_msg(t)),
        },
        Some(other) => Err(illegal_id_msg(json_text(other))),
    }
}

proof fn lemma_nat_digits(m: nat)
    ensures
        nat_digits(m).len() > 0,
        crate::text::all_digits(nat_digits(m)),
        crate::text::digits_value(nat_digits(m)) == m,
        nat_digits(m)[0] != '-' && nat_digits(m)[0] != '+',
    decreases m,
{
    let d = (('0' as nat) + m % 10) as char;
    assert(('0' as nat) + m % 10 <= 0x39);
    if m < 10 {
        assert(nat_digits(m) == seq![(('0' as nat) + m) as char]);
        assert(crate::text::digits_value(nat_digits(m)) == crate::text::digits_value(nat_digits(m).drop_last()) * 10
            + crate::text::digit_val(nat_digits(m).last()));
        assert(nat_digits(m).drop_last() =~= Seq::<char>::empty());
    } else {
        lemma_nat_digits(m / 10);
        let s = nat_digits(m);
        assert(s == nat_digits(m / 10).push(d));
        assert(s.drop_last() =~= nat_digits(m / 10));
        assert forall|i: int| 0 <= i < s.len() implies crate::text::is_ascii_digit(#[trigger] s[i]) by {
            if i < s.len() - 1 {
                assert(s[i] == nat_digits(m / 10)[i]);
            }
        }
        assert(s[0] == nat_digits(m / 10)[0]);
    }
}

/// An id written as its decimal text reads as the same id as the number itself.
pub proof fn law_id_text_reads_as_number(n: i64)
    ensures
        arg_i64_spec(Some(JView::Str(int_text(n as int)))) == Ok::<Option<i64>, Seq<char>>(Some(n)),
        arg_i64_spec(Some(JView::Number(n as int, 0))) == Ok::<Option<i64>, Seq<char>>(Some(n)),
{
    if n < 0 {
        let m = (-(n as int)) as nat;
        lemma_nat_digits(m);
        let s = int_text(n as int);
        assert(s == seq!['-'] + nat_digits(m));
        assert(s.drop_first() =~= nat_digits(m));
        assert(s[0] == '-');
    } else {
        lemma_nat_digits(n as nat);
    }
}

pub open spec fn id_result_matches(r: JeeflowResult<Option<i64>>, s: Result<Option<i64>, Seq<char>>) -> bool {
    match s {
        Ok(v) => r == Ok::<Option<i64>, JeeflowError>(v),
        Err(m) => r matches Err(JeeflowError::Business(x)) && x@ == m,
    }
}

fn illegal_id(t: &str) -> (r: JeeflowError)
    ensures
        r matches JeeflowError::Business(x) && x@ == illegal_id_msg(t@),
{
    let mut m = owned("非法id: ");
    push_str(&mut m, t);
    proof {
        reveal_strlit("非法id: ");
    }
    JeeflowError::Business(m)
}

fn id_of_value(v: &JsonValue) -> (r: JeeflowResult<Option<i64>>)
    ensures
        id_result_matches(r, arg_i64_spec(Some(jview(*v)))),
{
    match v {
        JsonValue::Number(n) => {
            if n.scale == 0 && n.mantissa >= i64::MIN as i128 && n.mantissa <= i64::MAX as i128 {
                Ok(Some(n.mantissa as i64))
            } else {
                let t = v.to_json_string();
                Err(illegal_id(t.as_str()))
            }
        },
        JsonValue::Str(t) => match crate::text::parse_i64(t.as_str()) {
            Some(n) => Ok(Some(n)),
            None => Err(illegal_id(t.as_str())),
        },
        _ => {
            let t = v.to_json_string();
            Err(illegal_id(t.as_str()))
        },
    }
}

/// An id argument (see `arg_i64_spec`).
pub fn arg_i64(args: &FlowData, key: &str) -> (r: JeeflowResult<Option<i64>>)
    ensures
        id_result_matches(r, arg_i64_spec(args.lookup(key@))),
{
    match args.get(key) {
        None => Ok(None),
        Some(v) => id_of_value(v),
    }
}

/// An id argument, or `default` when it is absent.
pub fn arg_i64_or(args: &FlowData, key: &str, default: i64) -> (r: JeeflowResult<i64>)
    ensures
        match arg_i64_spec(args.lookup(key@)) {
            Ok(Some(n)) => r == Ok::<i64, JeeflowError>(n),
            Ok(None) => r == Ok::<i64, JeeflowError>(default),
            Err(m) => r matches Err(JeeflowError::Business(x)) && x@ == m,
        },
{
    match arg_i64(args, key) {
        Ok(Some(n)) => Ok(n),
        Ok(None) => Ok(default),
        Err(e) => Err(e),
    }
}

/// The first id among the keys, in order (an illegal value ends the search with its error).
pub open spec fn arg_id_spec(args: FlowData, keys: Seq<Seq<char>>) -> Result<Option<i64>, Seq<char>>
    decreases keys.len(),
{
    if keys.len() == 0 {
        Ok(None)
    } else {
        match arg_i64_spec(args.lookup(keys[0])) {
            Ok(Some(n)) => Ok(Some(n)),
            Ok(None) => arg_id_spec(args, keys.drop_first()),
            Err(m) => Err(m),
        }
    }
}

/// The first id among the keys (see `arg_id_spec`).
pub fn arg_id(args: &FlowData, keys: &[&str]) -> (r: JeeflowResult<Option<i64>>)
    ensures
        id_result_matches(r, arg_id_spec(*args, keys@.map_values(|k: &str| k@))),
{
    let ghost ks = keys@.map_values(|k: &str| k@);
    let mut i: usize = 0;
    assert(ks.skip(0) =~= ks);
    while i < keys.len()
        invariant
            i <= keys.len(),
            ks == keys@.map_values(|k: &str| k@),
            arg_id_spec(*args, ks.skip(i as int)) == arg_id_spec(*args, ks),
        decreases keys.len() - i,
    {
        assert(ks.skip(i as int)[0] == keys@[i as int]@);
        assert(ks.skip(i as int).drop_first() =~= ks.skip(i + 1));
        match arg_i64(args, keys[i]) {
            Ok(Some(n)) => {
                return Ok(Some(n));
            },
            Ok(None) => {},
            Err(e) => {
                return Err(e);
            },
        }
        i = i + 1;
    }
    assert(ks.skip(keys.len() as int) =~= Seq::<Seq<char>>::empty());
    Ok(None)
}

/// The ids of a batch action: an `ids` array (each an id, else that element's error), else a
/// single `id`, else none.
pub open spec fn ids_of_items(items: Seq<JView>) -> Result<Seq<i64>, Seq<char>>
    decreases items.len(),
{
    if items.len() == 0 {
        Ok(Seq::empty())
    } else {
        match ids_of_items(items.drop_last()) {
            Err(m) => Err(m),
            Ok(prev) => match arg_i64_spec(Some(items.last())) {
                Ok(Some(n)) => Ok(prev.push(n)),
                Ok(None) => Ok(prev),
                Err(m) => Err(m),
            },
        }
    }
}

proof fn lemma_ids_err_prefix(s: Seq<JView>, k: int)
    requires
        0 <= k <= s.len(),
        ids_of_items(s.take(k)) is Err,
    ensures
        ids_of_items(s) == ids_of_items(s.take(k)),
    decreases s.len() - k,
{
    if k < s.len() {
        assert(s.take(k + 1).drop_last() =~= s.take(k));
        lemma_ids_err_prefix(s, k + 1);
    } else {
        assert(s.take(k) =~= s);
    }
}

pub open spec fn arg_ids_spec(args: FlowData) -> Result<Seq<i64>, Seq<char>> {
    match args.lookup("ids"@) {
        Some(JView::Array(items)) => ids_of_items(items),
        _ => match arg_i64_spec(args.lookup("id"@)) {
            Ok(Some(n)) => Ok(seq![n]),
            Ok(None) => Ok(Seq::empty()),
            Err(m) => Err(m),
        },
    }
}

/// The ids of a batch action (see `arg_ids_spec`).
pub fn arg_ids(args: &FlowData) -> (r: JeeflowResult<Vec<i64>>)
    ensures
        match arg_ids_spec(*args) {
            Ok(ids) => r matches Ok(v) && v@ == ids,
            Err(m) => r matches Err(JeeflowError::Business(x)) && x@ == m,
        },
{
    match args.get("ids") {
        Some(JsonValue::Array(items)) => {
            proof {
                crate::json::lemma_jview_list(items@);
            }
            let ghost jl = crate::json::jview_list(items@);
            assert(args.lookup("ids"@) == Some(JView::Array(jl)));
            let mut out: Vec<i64> = Vec::new();
            let mut i: usize = 0;
            while i < items.len()
                invariant
                    i <= items.len(),
                    jl == crate::json::jview_list(items@),
                    jl.len() == items@.len(),
                    forall|j: int| 0 <= j < items@.len() ==> #[trigger] jl[j] == jview(items@[j]),
                    ids_of_items(jl.take(i as int)) == Ok::<Seq<i64>, Seq<char>>(out@),
                    args.lookup("ids"@) == Some(JView::Array(jl)),
                decreases items.len() - i,
            {
                assert(jl.take(i + 1).drop_last() =~= jl.take(i as int));
                assert(jl.take(i + 1).last() == jview(items@[i as int]));
                let res = id_of_value(&items[i]);
                assert(id_result_matches(res, arg_i64_spec(Some(jl.take(i + 1).last()))));
                match res {
                    Ok(Some(n)) => out.push(n),
                    Ok(None) => {},
                    Err(e) => {
                        proof {
                            assert(arg_i64_spec(Some(jl.take(i + 1).last())) is Err);
                            assert(ids_of_items(jl.take(i + 1))
                                == Err::<Seq<i64>, Seq<char>>(arg_i64_spec(Some(jl.take(i + 1).last()))->Err_0));
                            lemma_ids_err_prefix(jl, i + 1);
                            assert(arg_ids_spec(*args) == ids_of_items(jl));
                        }
                        return Err(e);
                    },
                }
                i = i + 1;
            }
            assert(jl.take(items.len() as int) =~= jl);
            Ok(out)
        },
        _ => match arg_i64(args, "id") {
            Ok(Some(n)) => {
                let v = vec![n];
                assert(v@ =~= seq![n]);
                Ok(v)
            },
            Ok(None) => Ok(Vec::new()),
            Err(e) => Err(e),
        },
    }
}

/// Actor ids of an action: an `actorIds` array (texts as they are, integral numbers as their
/// digits, other non-null values as their JSON text without quotes; empty ones dropped), or a
/// comma-separated text.
pub open spec fn actor_item(v: JView) -> Option<Seq<char>> {
    match v {
        JView::Str(t) => Some(t),
        JView::Number(m, s) => if s == 0 && i64::MIN <= m <= i64::MAX {
            Some(int_text(m))
        } else {
            Some(crate::facade::trim_quotes(json_text(v)))
        },
        JView::Null => None,
        _ => Some(crate::facade::trim_quotes(json_text(v))),
    }
}

pub open spec fn actor_items(items: Seq<JView>) -> Seq<Seq<char>>
    decreases items.len(),
{
    if items.len() == 0 {
        Seq::empty()
    } else {
        let prev = actor_items(items.drop_last());
        match actor_item(items.last()) {
            Some(t) => if t.len() > 0 { prev.push(t) } else { prev },
            None => prev,
        }
    }
}

pub open spec fn arg_actor_ids_spec(args: FlowData) -> Seq<Seq<char>> {
    match args.lookup("actorIds"@) {
        Some(JView::Array(items)) => actor_items(items),
        Some(JView::Str(s)) => csv_items(s),
        _ => Seq::empty(),
    }
}

fn actor_item_text(v: &JsonValue) -> (r: Option<String>)
    ensures
        opt_view(r) == actor_item(jview(*v)),
{
    match v {
        JsonValue::Str(t) => Some(t.clone()),
        JsonValue::Null => None,
        JsonValue::Number(n) => {
            if n.scale == 0 && n.mantissa >= i64::MIN as i128 && n.mantissa <= i64::MAX as i128 {
                Some(crate::text::i64_text(n.mantissa as i64))
            } else {
                let t = v.to_json_string();
                Some(crate::facade::strip_quotes_text(t.as_str()))
            }
        },
        _ => {
            let t = v.to_json_string();
            Some(crate::facade::strip_quotes_text(t.as_str()))
        },
    }
}

/// The actor ids of an action (see `arg_actor_ids_spec`).
pub fn arg_actor_ids(args: &FlowData) -> (r: Vec<String>)
    ensures
        views(r@) == arg_actor_ids_spec(*args),
{
    match args.get("actorIds") {
        Some(JsonValue::Array(items)) => {
            proof {
                crate::json::lemma_jview_list(items@);
            }
            let ghost jl = crate::json::jview_list(items@);
            let mut out: Vec<String> = Vec::new();
            let mut i: usize = 0;
            while i < items.len()
                invariant
                    i <= items.len(),
                    jl == crate::json::jview_list(items@),
                    jl.len() == items@.len(),
                    forall|j: int| 0 <= j < items@.len() ==> #[trigger] jl[j] == jview(items@[j]),
                    views(out@) == actor_items(jl.take(i as int)),
                decreases items.len() - i,
            {
                assert(jl.take(i + 1).drop_last() =~= jl.take(i as int));
                assert(jl.take(i + 1).last() == jview(items@[i as int]));
                match actor_item_text(&items[i]) {
                    Some(t) => {
                        if !t.as_str().is_empty() {
                            let ghost before = views(out@);
                            out.push(t);
                            assert(views(out@) =~= before.push(out@[out@.len() - 1]@));
                        }
                    },
                    None => {},
                }
                i = i + 1;
            }
            assert(jl.take(items.len() as int) =~= jl);
            out
        },
        Some(JsonValue::Str(s)) => split_csv(s.as_str()),
        _ => {
            let v: Vec<String> = Vec::new();
            assert(views(v@) =~= Seq::<Seq<char>>::empty());
            v
        },
    }
}

// ─────────────── defines ───────────────

/// The greatest version among the defines named `name`, if any.
pub open spec fn max_version(rows: Seq<DefineRow>, name: Seq<char>) -> Option<i32>
    decreases rows.len(),
{
    if rows.len() == 0 {
        None
    } else {
        let prev = max_version(rows.drop_last(), name);
        let r = rows.last();
        if r.name@ == name {
            match prev {
                Some(v) => if r.version > v { Some(r.version) } else { Some(v) },
                None => Some(r.version),
            }
        } else {
            prev
        }
    }
}

/// The version a newly deployed define of `name` gets: one past the greatest so far, else 0.
pub fn next_define_version(rows: &[DefineRow], name: &str) -> (r: i32)
    requires
        forall|i: int| 0 <= i < rows@.len() && rows@[i].name@ == name@ ==> rows@[i].version < i32::MAX,
    ensures
        r == match max_version(rows@, name@) {
            Some(v) => v + 1,
            None => 0,
        },
{
    let mut best: Option<i32> = None;
    let mut i: usize = 0;
    while i < rows.len()
        invariant
            i <= rows.len(),
            forall|k: int| 0 <= k < rows@.len() && rows@[k].name@ == name@ ==> rows@[k].version < i32::MAX,
            best == max_version(rows@.take(i as int), name@),
            best matches Some(b) ==> b < i32::MAX,
        decreases rows.len() - i,
    {
        assert(rows@.take(i + 1).drop_last() =~= rows@.take(i as int));
        assert(rows@.take(i + 1).last() == rows@[i as int]);
        if str_eq(rows[i].name.as_str(), name) {
            best = match best {
                Some(v) => if rows[i].version > v { Some(rows[i].version) } else { Some(v) },
                None => Some(rows[i].version),
            };
        }
        i = i + 1;
    }
    assert(rows@.take(rows.len() as int) =~= rows@);
    match best {
        Some(v) => v + 1,
        None => 0,
    }
}

/// The index of the define of `name` with the greatest version (the last such one on ties).
pub open spec fn last_by_name(rows: Seq<DefineRow>, name: Seq<char>) -> int
    decreases rows.len(),
{
    if rows.len() == 0 {
        -1
    } else {
        let prev = last_by_name(rows.drop_last(), name);
        let r = rows.last();
        if r.name@ == name && (prev < 0 || r.version >= rows[prev].version) {
            rows.len() - 1
        } else {
            prev
        }
    }
}

proof fn lemma_last_by_name(rows: Seq<DefineRow>, name: Seq<char>)
    ensures
        -1 <= last_by_name(rows, name) < rows.len(),
        last_by_name(rows, name) >= 0 ==> rows[last_by_name(rows, name)].name@ == name,
    decreases rows.len(),
{
    if rows.len() > 0 {
        lemma_last_by_name(rows.drop_last(), name);
    }
}

/// The define of `name` with the greatest version (see `last_by_name`).
pub fn latest_define_index(rows: &[DefineRow], name: &str) -> (r: Option<usize>)
    ensures
        match r {
            Some(i) => i as int == last_by_name(rows@, name@) && i < rows@.len(),
            None => last_by_name(rows@, name@) == -1,
        },
{
    let mut best: Option<usize> = None;
    let mut i: usize = 0;
    while i < rows.len()
        invariant
            i <= rows.len(),
            match best {
                Some(b) => b < i && b as int == last_by_name(rows@.take(i as int), name@),
                None => last_by_name(rows@.take(i as int), name@) == -1,
            },
        decreases rows.len() - i,
    {
        assert(rows@.take(i + 1).drop_last() =~= rows@.take(i as int));
        assert(rows@.take(i + 1).last() == rows@[i as int]);
        proof {
            lemma_last_by_name(rows@.take(i as int), name@);
            match best {
                Some(b) => {
                    assert(rows@.take(i + 1)[b as int] == rows@[b as int]);
                },
                None => {},
            }
        }
        if str_eq(rows[i].name.as_str(), name) {
            match best {
                Some(b) => {
                    if rows[i].version >= rows[b].version {
                        best = Some(i);
                    }
                },
                None => {
                    best = Some(i);
                },
            }
        }
        i = i + 1;
    }
    assert(rows@.take(rows.len() as int) =~= rows@);
    best
}

/// The first enabled define named `name` (what a start by name uses).
pub fn enabled_define_by_name(rows: &[DefineRow], name: &str) -> (r: Option<i64>)
    ensures
        match r {
            Some(id) => exists|i: int| 0 <= i < rows@.len() && rows@[i].id == id && rows@[i].name@ == name@
                && rows@[i].state == 1 && forall|j: int| 0 <= j < i ==> !(#[trigger] rows@[j].name@ == name@ && rows@[j].state == 1),
            None => forall|j: int| 0 <= j < rows@.len() ==> !(#[trigger] rows@[j].name@ == name@ && rows@[j].state == 1),
        },
{
    let mut i: usize = 0;
    while i < rows.len()
        invariant
            i <= rows.len(),
            forall|j: int| 0 <= j < i ==> !(#[trigger] rows@[j].name@ == name@ && rows@[j].state == 1),
        decreases rows.len() - i,
    {
        if str_eq(rows[i].name.as_str(), name) && rows[i].state == 1 {
            return Some(rows[i].id);
        }
        i = i + 1;
    }
    None
}

// ─────────────── result rows ───────────────

/// The rows of page `page_num` (counting from 1) of `page_size` rows: none when the page
/// starts before the first row or at or past the end; a negative size reads to the end.
pub open spec fn page_slice<T>(rows: Seq<T>, page_num: i64, page_size: i64) -> Seq<T> {
    let start = (page_num - 1) * page_size;
    if start < 0 || start >= rows.len() {
        Seq::empty()
    } else {
        let end = if page_size >= 0 && start + page_size < rows.len() { start + page_size } else { rows.len() as int };
        rows.subrange(start, end)
    }
}

/// Page the rows again after filtering (see `page_slice`), with the row count. A negative
/// size is taken on the first page only.
pub fn re_paginate<T>(rows: Vec<T>, page_num: i64, page_size: i64) -> (r: (Vec<T>, i64))
    requires
        page_size >= 0 || page_num == 1,
        i64::MIN <= (page_num - 1) * page_size <= i64::MAX,
        rows@.len() <= i64::MAX,
    ensures
        r.0@ == page_slice(rows@, page_num, page_size),
        r.1 == rows@.len(),
{
    let total = rows.len() as i64;
    let wide: i128 = ((page_num as i128) - 1) * (page_size as i128);
    let start: i64 = wide as i64;
    if start < 0 || start >= total {
        return (Vec::new(), total);
    }
    let s = start as usize;
    let e: usize = if page_size >= 0 && page_size < total - start { s + page_size as usize } else { rows.len() };
    let ghost all = rows@;
    let mut rows = rows;
    let mut tail = rows.split_off(s);
    tail.truncate(e - s);
    assert(tail@ =~= all.subrange(start as int, e as int));
    (tail, total)
}

/// The text a filter compares for a row: the field under the camel-cased column (else the
/// column as written) — a text as it is, anything else as its JSON text without quotes.
pub open spec fn row_field(row: JView, column: Seq<char>) -> Option<Seq<char>> {
    let v = match crate::vo::obj_field(row, crate::model::camel_from(column, false)) {
        Some(x) => Some(x),
        None => crate::vo::obj_field(row, column),
    };
    match v {
        Some(JView::Str(t)) => Some(t),
        Some(x) => Some(crate::facade::trim_quotes(json_text(x))),
        None => None,
    }
}

/// Whether a row passes every filter.
pub open spec fn row_passes_spec(row: JView, filters: Seq<QueryFilter>) -> bool {
    forall|i: int| 0 <= i < filters.len() ==> match row_field(row, #[trigger] filters[i].column@) {
        Some(t) => op_holds(filters[i].op, t, filters[i].value@),
        None => false,
    }
}

/// Whether a row passes every filter (see `row_passes_spec`).
pub fn row_passes(row: &JsonValue, filters: &[QueryFilter]) -> (r: bool)
    ensures
        r == row_passes_spec(jview(*row), filters@),
{
    let mut i: usize = 0;
    while i < filters.len()
        invariant
            i <= filters.len(),
            forall|k: int| 0 <= k < i ==> match row_field(jview(*row), #[trigger] filters@[k].column@) {
                Some(t) => op_holds(filters@[k].op, t, filters@[k].value@),
                None => false,
            },
        decreases filters.len() - i,
    {
        let f = &filters[i];
        let camel = crate::facade::to_camel(f.column.as_str());
        let v = match row.get(camel.as_str()) {
            Some(x) => Some(x),
            None => row.get(f.column.as_str()),
        };
        let t: String = match v {
            Some(JsonValue::Str(s)) => s.clone(),
            Some(x) => {
                let j = x.to_json_string();
                crate::facade::strip_quotes_text(j.as_str())
            },
            None => {
                return false;
            },
        };
        if !op_matches(&f.op, t.as_str(), f.value.as_str()) {
            return false;
        }
        i = i + 1;
    }
    true
}

/// The rows that pass every filter, in order.
pub open spec fn rows_passing(rows: Seq<JView>, filters: Seq<QueryFilter>) -> Seq<JView>
    decreases rows.len(),
{
    if rows.len() == 0 {
        Seq::empty()
    } else {
        let prev = rows_passing(rows.drop_last(), filters);
        if row_passes_spec(rows.last(), filters) {
            prev.push(rows.last())
        } else {
            prev
        }
    }
}

/// The rows that pass every filter, in order (see `rows_passing`).
pub fn filter_rows(rows: Vec<JsonValue>, filters: &[QueryFilter]) -> (r: Vec<JsonValue>)
    ensures
        crate::json::jview_list(r@) == rows_passing(crate::json::jview_list(rows@), filters@),
{
    let ghost all = rows@;
    let mut rest = rows;
    let mut kept: Vec<JsonValue> = Vec::new();
    let ghost mut taken: Seq<JsonValue> = Seq::empty();
    while rest.len() > 0
        invariant
            all == taken + rest@,
            crate::json::jview_list(kept@) == rows_passing(crate::json::jview_list(taken), filters@),
        decreases rest.len(),
    {
        let ghost r0 = rest@;
        let row = rest.remove(0);
        let ghost t0 = taken;
        proof {
            taken = taken.push(row);
            crate::json::lemma_jview_list_push(t0, row);
            assert(crate::json::jview_list(taken).drop_last() =~= crate::json::jview_list(t0));
            assert(r0 =~= seq![row] + rest@);
            assert(all =~= taken + rest@);
        }
        let pass = row_passes(&row, filters);
        if pass {
            let ghost k0 = kept@;
            kept.push(row);
            proof {
                crate::json::lemma_jview_list_push(k0, row);
            }
        }
    }
    assert(taken =~= all);
    kept
}

// ─────────────── tasks ───────────────

/// The nodes a task may jump back to: the nodes of finished non-countersign tasks, each once,
/// as (display name, node id).
pub open spec fn jump_targets(done: Seq<ProcessTask>, acc: Seq<(Seq<char>, Seq<char>)>) -> Seq<(Seq<char>, Seq<char>)>
    decreases done.len(),
{
    if done.len() == 0 {
        acc
    } else {
        let t = done[0];
        let seen = exists|k: int| 0 <= k < acc.len() && #[trigger] acc[k].1 == t.task_name@;
        let acc2 = if t.perform_type == 1 || seen {
            acc
        } else {
            acc.push((t.display_name@, t.task_name@))
        };
        jump_targets(done.drop_first(), acc2)
    }
}

/// The nodes a task may jump back to (see `jump_targets`).
pub fn jump_able_task_names(done: &[ProcessTask]) -> (r: Vec<(String, String)>)
    ensures
        r@.map_values(|p: (String, String)| (p.0@, p.1@)) == jump_targets(done@, Seq::empty()),
{
    let mut out: Vec<(String, String)> = Vec::new();
    let mut i: usize = 0;
    assert(done@.skip(0) =~= done@);
    assert(out@.map_values(|p: (String, String)| (p.0@, p.1@)) =~= Seq::<(Seq<char>, Seq<char>)>::empty());
    while i < done.len()
        invariant
            i <= done.len(),
            jump_targets(done@.skip(i as int), out@.map_values(|p: (String, String)| (p.0@, p.1@)))
                == jump_targets(done@, Seq::empty()),
        decreases done.len() - i,
    {
        let ghost acc = out@.map_values(|p: (String, String)| (p.0@, p.1@));
        let t = &done[i];
        assert(done@.skip(i as int)[0] == *t);
        assert(done@.skip(i as int).drop_first() =~= done@.skip(i + 1));
        let mut seen = false;
        let mut k: usize = 0;
        while k < out.len()
            invariant
                k <= out.len(),
                acc == out@.map_values(|p: (String, String)| (p.0@, p.1@)),
                seen == exists|j: int| 0 <= j < k && #[trigger] acc[j].1 == t.task_name@,
            decreases out.len() - k,
        {
            assert(acc[k as int] == (out@[k as int].0@, out@[k as int].1@));
            let ghost old_seen = seen;
            let hit = str_eq(out[k].1.as_str(), t.task_name.as_str());
            if hit {
                seen = true;
            }
            proof {
                if hit {
                    assert(acc[k as int].1 == t.task_name@);
                } else {
                    assert forall|j: int| 0 <= j < k + 1 && #[trigger] acc[j].1 == t.task_name@ implies old_seen by {
                        if j == k {
                            assert(false);
                        }
                    }
                }
            }
            k = k + 1;
        }
        if !(t.perform_type == 1 || seen) {
            out.push((t.display_name.clone(), t.task_name.clone()));
            assert(out@.map_values(|p: (String, String)| (p.0@, p.1@)) =~= acc.push((t.display_name@, t.task_name@)));
        }
        i = i + 1;
    }
    assert(done@.skip(done.len() as int) =~= Seq::<ProcessTask>::empty());
    out
}

/// The label of an assignee row: `display name:actor` when node names are wanted.
pub fn assignee_label(display_name: &str, actor: &str, include_node_name: bool) -> (r: String)
    ensures
        r@ == if include_node_name {
            display_name@ + seq![':'] + actor@
        } else {
            actor@
        },
{
    if include_node_name {
        let mut s = owned(display_name);
        crate::text::push_char(&mut s, ':');
        push_str(&mut s, actor);
        s
    } else {
        owned(actor)
    }
}

} // verus!
