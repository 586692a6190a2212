//! The JSON the facade answers with: the response envelope, the key and id conventions of
//! its output, and the views of rows, tasks and pages.

use vstd::prelude::*;
use crate::facade::{opaque_value_key, to_camel, is_opaque_value_key};
use crate::json::{
    jview, jview_entries, jview_list, lemma_jview_entries_push, lemma_jview_list_push, number_text,
    JsonNumber, JsonValue, JView,
};
use crate::model::camel_from;
use crate::text::{ends_with, has_suffix, owned, str_eq};

verus! {

// ─────────────── envelope ───────────────

pub const CODE_SUCCESS: i64 = 0;

pub const CODE_ERROR: i64 = 99999999;

/// `{"code": 0, "msg": "成功", "data": data}`.
pub fn success_response(data: JsonValue) -> (r: JsonValue)
    ensures
        jview(r) == JView::Object(seq![
            ("code"@, JView::Number(0, 0)),
            ("msg"@, JView::Str("成功"@)),
            ("data"@, jview(data)),
        ]),
{
    let ghost d = jview(data);
    let v = vec![
        (owned("code"), JsonValue::number(CODE_SUCCESS)),
        (owned("msg"), JsonValue::string("成功")),
        (owned("data"), data),
    ];
    proof {
        crate::json::lemma_jview_entries(v@);
    }
    let r = JsonValue::object(v);
    assert(jview_entries(v@) =~= seq![
        ("code"@, JView::Number(0, 0)),
        ("msg"@, JView::Str("成功"@)),
        ("data"@, d),
    ]);
    r
}

/// `{"code": 99999999, "msg": msg}`.
pub fn error_response(msg: &str) -> (r: JsonValue)
    ensures
        jview(r) == JView::Object(seq![
            ("code"@, JView::Number(99999999, 0)),
            ("msg"@, JView::Str(msg@)),
        ]),
{
    let v = vec![
        (owned("code"), JsonValue::number(CODE_ERROR)),
        (owned("msg"), JsonValue::string(msg)),
    ];
    proof {
        crate::json::lemma_jview_entries(v@);
    }
    let r = JsonValue::object(v);
    assert(jview_entries(v@) =~= seq![("code"@, JView::Number(99999999, 0)), ("msg"@, JView::Str(msg@))]);
    r
}

// ─────────────── camelCase keys ───────────────

/// The value with its object keys camel-cased while `convert` holds; below a key that names a
/// free-form map (before or after conversion) keys are kept as they are.
pub open spec fn camel_of(v: JsonValue, convert: bool) -> JView
    decreases v, 0int,
{
    match v {
        JsonValue::Array(items) => JView::Array(camel_list(items@, convert)),
        JsonValue::Object(entries) => JView::Object(camel_entries(entries@, convert)),
        _ => jview(v),
    }
}

pub open spec fn camel_key(k: Seq<char>, convert: bool) -> Seq<char> {
    if convert { camel_from(k, false) } else { k }
}

pub open spec fn camel_child(k: Seq<char>, convert: bool) -> bool {
    convert && !opaque_value_key(k) && !opaque_value_key(camel_key(k, convert))
}

pub open spec fn camel_list(s: Seq<JsonValue>, convert: bool) -> Seq<JView>
    decreases s, 1int,
{
    if s.len() == 0 {
        Seq::empty()
    } else {
        camel_list(s.drop_last(), convert).push(camel_of(s.last(), convert))
    }
}

pub open spec fn camel_entries(s: Seq<(String, JsonValue)>, convert: bool) -> Seq<(Seq<char>, JView)>
    decreases s, 1int,
{
    if s.len() == 0 {
        Seq::empty()
    } else {
        let k = s.last().0@;
        camel_entries(s.drop_last(), convert).push(
            (camel_key(k, convert), camel_of(s.last().1, camel_child(k, convert))),
        )
    }
}

fn camel_inner(val: &JsonValue, convert: bool) -> (r: JsonValue)
    ensures
        jview(r) == camel_of(*val, convert),
    decreases val,
{
    match val {
        JsonValue::Array(items) => {
            let mut out: Vec<JsonValue> = Vec::new();
            let mut i: usize = 0;
            while i < items.len()
                invariant
                    0 <= i <= items.len(),
                    jview_list(out@) == camel_list(items@.take(i as int), convert),
                    *val == JsonValue::Array(*items),
                decreases items.len() - i,
            {
                proof {
                    assert(decreases_to!(*val => val->Array_0));
                    assert(decreases_to!(*items => items@));
                    assert(decreases_to!(items@ => items@[i as int]));
                }
                let x = camel_inner(&items[i], convert);
                let ghost before = out@;
                out.push(x);
                proof {
                    lemma_jview_list_push(before, x);
                    assert(items@.take(i + 1).drop_last() =~= items@.take(i as int));
                }
                i = i + 1;
            }
            assert(items@.take(items.len() as int) =~= items@);
            JsonValue::Array(out)
        },
        JsonValue::Object(entries) => {
            let mut out: Vec<(String, JsonValue)> = Vec::new();
            let mut i: usize = 0;
            while i < entries.len()
                invariant
                    0 <= i <= entries.len(),
                    jview_entries(out@) == camel_entries(entries@.take(i as int), convert),
                    *val == JsonValue::Object(*entries),
                decreases entries.len() - i,
            {
                proof {
                    assert(decreases_to!(*val => val->Object_0));
                    assert(decreases_to!(*entries => entries@));
                    assert(decreases_to!(entries@ => entries@[i as int]));
                    assert(decreases_to!(entries@[i as int] => entries@[i as int].1));
                }
                let k = &entries[i].0;
                let new_key = if convert { to_camel(k.as_str()) } else { k.clone() };
                let child = convert && !is_opaque_value_key(k.as_str()) && !is_opaque_value_key(new_key.as_str());
                let x = camel_inner(&entries[i].1, child);
                let ghost before = out@;
                out.push((new_key, x));
                proof {
                    lemma_jview_entries_push(before, (new_key, x));
                    assert(entries@.take(i + 1).drop_last() =~= entries@.take(i as int));
                }
                i = i + 1;
            }
            assert(entries@.take(entries.len() as int) =~= entries@);
            JsonValue::Object(out)
        },
        _ => val.dup(),
    }
}

/// Camel-case the keys of the output (see `camel_of`).
pub fn to_camel_json(val: &JsonValue) -> (r: JsonValue)
    ensures
        jview(r) == camel_of(*val, true),
{
    camel_inner(val, true)
}

// ─────────────── ids as text ───────────────

pub open spec fn singular_id_key(k: Seq<char>) -> bool {
    k == "id"@ || ends_with(k, "Id"@) || ends_with(k, "_id"@)
}

pub open spec fn plural_id_key(k: Seq<char>) -> bool {
    k == "ids"@ || ends_with(k, "Ids"@) || ends_with(k, "_ids"@)
}

/// A number as its text; anything else as it is.
pub open spec fn id_text_of(v: JsonValue) -> JView {
    match v {
        JsonValue::Number(n) => JView::Str(number_text(n.mantissa as int, n.scale as nat)),
        _ => jview(v),
    }
}

pub open spec fn id_texts(s: Seq<JsonValue>) -> Seq<JView>
    decreases s.len(),
{
    if s.len() == 0 {
        Seq::empty()
    } else {
        id_texts(s.drop_last()).push(id_text_of(s.last()))
    }
}

/// Every element of an id array as text; a non-array as one id.
pub open spec fn id_array_of(v: JsonValue) -> JView {
    match v {
        JsonValue::Array(items) => JView::Array(id_texts(items@)),
        _ => id_text_of(v),
    }
}

/// The value with the numbers under id keys (`id`, `…Id`, `…_id`) and in id arrays (`ids`,
/// `…Ids`, `…_ids`) written as text.
pub open spec fn ids_of(v: JsonValue) -> JView
    decreases v, 0int,
{
    match v {
        JsonValue::Array(items) => JView::Array(ids_list(items@)),
        JsonValue::Object(entries) => JView::Object(ids_entries(entries@)),
        _ => jview(v),
    }
}

pub open spec fn ids_list(s: Seq<JsonValue>) -> Seq<JView>
    decreases s, 1int,
{
    if s.len() == 0 {
        Seq::empty()
    } else {
        ids_list(s.drop_last()).push(ids_of(s.last()))
    }
}

pub open spec fn ids_entries(s: Seq<(String, JsonValue)>) -> Seq<(Seq<char>, JView)>
    decreases s, 1int,
{
    if s.len() == 0 {
        Seq::empty()
    } else {
        let k = s.last().0@;
        let v = s.last().1;
        ids_entries(s.drop_last()).push(
            (k, if singular_id_key(k) { id_text_of(v) } else if plural_id_key(k) { id_array_of(v) } else { ids_of(v) }),
        )
    }
}

fn id_text(v: &JsonValue) -> (r: JsonValue)
    ensures
        jview(r) == id_text_of(*v),
{
    match v {
        JsonValue::Number(n) => JsonValue::Str(crate::json::number_to_text(*n)),
        _ => v.dup(),
    }
}

fn id_array(v: &JsonValue) -> (r: JsonValue)
    ensures
        jview(r) == id_array_of(*v),
{
    match v {
        JsonValue::Array(items) => {
            let mut out: Vec<JsonValue> = Vec::new();
            let mut i: usize = 0;
            while i < items.len()
                invariant
                    0 <= i <= items.len(),
                    jview_list(out@) == id_texts(items@.take(i as int)),
                decreases items.len() - i,
            {
                let x = id_text(&items[i]);
                let ghost before = out@;
                out.push(x);
                proof {
                    lemma_jview_list_push(before, x);
                    assert(items@.take(i + 1).drop_last() =~= items@.take(i as int));
                }
                i = i + 1;
            }
            assert(items@.take(items.len() as int) =~= items@);
            JsonValue::Array(out)
        },
        _ => id_text(v),
    }
}

fn is_singular_id_key(k: &str) -> (r: bool)
    ensures
        r == singular_id_key(k@),
{
    str_eq(k, "id") || has_suffix(k, "Id") || has_suffix(k, "_id")
}

fn is_plural_id_key(k: &str) -> (r: bool)
    ensures
        r == plural_id_key(k@),
{
    str_eq(k, "ids") || has_suffix(k, "Ids") || has_suffix(k, "_ids")
}

/// Write the ids of the output as text (see `ids_of`).
pub fn stringify_ids(val: &JsonValue) -> (r: JsonValue)
    ensures
        jview(r) == ids_of(*val),
    decreases val,
{
    match val {
        JsonValue::Array(items) => {
            let mut out: Vec<JsonValue> = Vec::new();
            let mut i: usize = 0;
            while i < items.len()
                invariant
                    0 <= i <= items.len(),
                    jview_list(out@) == ids_list(items@.take(i as int)),
                    *val == JsonValue::Array(*items),
                decreases items.len() - i,
            {
                proof {
                    assert(decreases_to!(*val => val->Array_0));
                    assert(decreases_to!(*items => items@));
                    assert(decreases_to!(items@ => items@[i as int]));
                }
                let x = stringify_ids(&items[i]);
                let ghost before = out@;
                out.push(x);
                proof {
                    lemma_jview_list_push(before, x);
                    assert(items@.take(i + 1).drop_last() =~= items@.take(i as int));
                }
                i = i + 1;
            }
            assert(items@.take(items.len() as int) =~= items@);
            JsonValue::Array(out)
        },
        JsonValue::Object(entries) => {
            let mut out: Vec<(String, JsonValue)> = Vec::new();
            let mut i: usize = 0;
            while i < entries.len()
                invariant
                    0 <= i <= entries.len(),
                    jview_entries(out@) == ids_entries(entries@.take(i as int)),
                    *val == JsonValue::Object(*entries),
                decreases entries.len() - i,
            {
                proof {
                    assert(decreases_to!(*val => val->Object_0));
                    assert(decreases_to!(*entries => entries@));
                    assert(decreases_to!(entries@ => entries@[i as int]));
                    assert(decreases_to!(entries@[i as int] => entries@[i as int].1));
                }
                let k = &entries[i].0;
                let v = &entries[i].1;
                let x = if is_singular_id_key(k.as_str()) {
                    id_text(v)
                } else if is_plural_id_key(k.as_str()) {
                    id_array(v)
                } else {
                    stringify_ids(v)
                };
                let kk = k.clone();
                let ghost before = out@;
                out.push((kk, x));
                proof {
                    lemma_jview_entries_push(before, (kk, x));
                    assert(entries@.take(i + 1).drop_last() =~= entries@.take(i as int));
                }
                i = i + 1;
            }
            assert(entries@.take(entries.len() as int) =~= entries@);
            JsonValue::Object(out)
        },
        _ => val.dup(),
    }
}

// ─────────────── small values ───────────────

pub open spec fn jtext(o: Option<Seq<char>>) -> JView {
    match o {
        Some(t) => JView::Str(t),
        None => JView::Null,
    }
}

pub open spec fn jint(o: Option<int>) -> JView {
    match o {
        Some(n) => JView::Number(n, 0),
        None => JView::Null,
    }
}

/// A text, or `null`.
pub fn opt_text(o: &Option<String>) -> (r: JsonValue)
    ensures
        jview(r) == jtext(crate::model::opt_view(*o)),
{
    match o {
        Some(t) => JsonValue::Str(t.clone()),
        None => JsonValue::Null,
    }
}

/// A number, or `null`.
pub fn opt_i64(o: Option<i64>) -> (r: JsonValue)
    ensures
        jview(r) == jint(match o { Some(n) => Some(n as int), None => None }),
{
    match o {
        Some(n) => JsonValue::number(n),
        None => JsonValue::Null,
    }
}

/// A number, or `null`.
pub fn opt_i32(o: Option<i32>) -> (r: JsonValue)
    ensures
        jview(r) == jint(match o { Some(n) => Some(n as int), None => None }),
{
    match o {
        Some(n) => JsonValue::number(n as i64),
        None => JsonValue::Null,
    }
}

pub fn num(n: i64) -> (r: JsonValue)
    ensures
        jview(r) == JView::Number(n as int, 0),
{
    JsonValue::number(n)
}

/// One object entry.
pub fn kv(k: &str, v: JsonValue) -> (r: (String, JsonValue))
    ensures
        r.0@ == k@,
        r.1 == v,
{
    (owned(k), v)
}


/// The view of a define row (its type under `type`).
pub open spec fn define_row_to_json_view(d: crate::model::DefineRow) -> JView {
    JView::Object(seq![
        ("id"@, JView::Number(d.id as int, 0)),
        ("name"@, JView::Str(d.name@)),
        ("display_name"@, JView::Str(d.display_name@)),
        ("type"@, JView::Str(d.define_type@)),
        ("state"@, JView::Number(d.state as int, 0)),
        ("version"@, JView::Number(d.version as int, 0)),
        ("create_time"@, jtext(crate::model::opt_view(d.create_time))),
        ("create_user"@, jtext(crate::model::opt_view(d.create_user))),
        ("update_time"@, jtext(crate::model::opt_view(d.update_time))),
        ("update_user"@, jtext(crate::model::opt_view(d.update_user))),
    ])
}

/// The view of a define row (its type under `type`).
pub fn define_row_to_json(d: &crate::model::DefineRow) -> (r: JsonValue)
    ensures
        jview(r) == define_row_to_json_view(*d),
{
    let v = vec![
        kv("id", num(d.id as i64)),
        kv("name", JsonValue::string(d.name.as_str())),
        kv("display_name", JsonValue::string(d.display_name.as_str())),
        kv("type", JsonValue::string(d.define_type.as_str())),
        kv("state", num(d.state as i64)),
        kv("version", num(d.version as i64)),
        kv("create_time", opt_text(&d.create_time)),
        kv("create_user", opt_text(&d.create_user)),
        kv("update_time", opt_text(&d.update_time)),
        kv("update_user", opt_text(&d.update_user)),
    ];
    proof {
        crate::json::lemma_jview_entries(v@);
    }
    assert(jview_entries(v@) =~= seq![
        ("id"@, JView::Number(d.id as int, 0)),
        ("name"@, JView::Str(d.name@)),
        ("display_name"@, JView::Str(d.display_name@)),
        ("type"@, JView::Str(d.define_type@)),
        ("state"@, JView::Number(d.state as int, 0)),
        ("version"@, JView::Number(d.version as int, 0)),
        ("create_time"@, jtext(crate::model::opt_view(d.create_time))),
        ("create_user"@, jtext(crate::model::opt_view(d.create_user))),
        ("update_time"@, jtext(crate::model::opt_view(d.update_time))),
        ("update_user"@, jtext(crate::model::opt_view(d.update_user))),
    ]);
    JsonValue::object(v)
}

/// The view of a design.
pub open spec fn design_to_json_view(d: crate::model::ProcessDesign) -> JView {
    JView::Object(seq![
        ("id"@, JView::Number(d.id as int, 0)),
        ("name"@, JView::Str(d.name@)),
        ("display_name"@, JView::Str(d.display_name@)),
        ("type"@, JView::Str(d.design_type@)),
        ("icon"@, jtext(crate::model::opt_view(d.icon))),
        ("is_deployed"@, JView::Number(d.is_deployed as int, 0)),
        ("remark"@, jtext(crate::model::opt_view(d.remark))),
        ("create_time"@, jtext(crate::model::opt_view(d.create_time))),
        ("create_user"@, jtext(crate::model::opt_view(d.create_user))),
        ("update_time"@, jtext(crate::model::opt_view(d.update_time))),
        ("update_user"@, jtext(crate::model::opt_view(d.update_user))),
    ])
}

/// The view of a design.
pub fn design_to_json(d: &crate::model::ProcessDesign) -> (r: JsonValue)
    ensures
        jview(r) == design_to_json_view(*d),
{
    let v = vec![
        kv("id", num(d.id as i64)),
        kv("name", JsonValue::string(d.name.as_str())),
        kv("display_name", JsonValue::string(d.display_name.as_str())),
        kv("type", JsonValue::string(d.design_type.as_str())),
        kv("icon", opt_text(&d.icon)),
        kv("is_deployed", num(d.is_deployed as i64)),
        kv("remark", opt_text(&d.remark)),
        kv("create_time", opt_text(&d.create_time)),
        kv("create_user", opt_text(&d.create_user)),
        kv("update_time", opt_text(&d.update_time)),
        kv("update_user", opt_text(&d.update_user)),
    ];
    proof {
        crate::json::lemma_jview_entries(v@);
    }
    assert(jview_entries(v@) =~= seq![
        ("id"@, JView::Number(d.id as int, 0)),
        ("name"@, JView::Str(d.name@)),
        ("display_name"@, JView::Str(d.display_name@)),
        ("type"@, JView::Str(d.design_type@)),
        ("icon"@, jtext(crate::model::opt_view(d.icon))),
        ("is_deployed"@, JView::Number(d.is_deployed as int, 0)),
        ("remark"@, jtext(crate::model::opt_view(d.remark))),
        ("create_time"@, jtext(crate::model::opt_view(d.create_time))),
        ("create_user"@, jtext(crate::model::opt_view(d.create_user))),
        ("update_time"@, jtext(crate::model::opt_view(d.update_time))),
        ("update_user"@, jtext(crate::model::opt_view(d.update_user))),
    ]);
    JsonValue::object(v)
}

/// The view of a surrogate.
pub open spec fn surrogate_to_json_view(g: crate::model::ProcessSurrogate) -> JView {
    JView::Object(seq![
        ("id"@, JView::Number(g.id as int, 0)),
        ("process_name"@, JView::Str(g.process_name@)),
        ("operator"@, JView::Str(g.operator@)),
        ("surrogate"@, JView::Str(g.surrogate@)),
        ("start_time"@, jtext(crate::model::opt_view(g.start_time))),
        ("end_time"@, jtext(crate::model::opt_view(g.end_time))),
        ("enabled"@, JView::Number(g.enabled as int, 0)),
        ("create_time"@, jtext(crate::model::opt_view(g.create_time))),
        ("create_user"@, jtext(crate::model::opt_view(g.create_user))),
        ("update_time"@, jtext(crate::model::opt_view(g.update_time))),
        ("update_user"@, jtext(crate::model::opt_view(g.update_user))),
    ])
}

/// The view of a surrogate.
pub fn surrogate_to_json(g: &crate::model::ProcessSurrogate) -> (r: JsonValue)
    ensures
        jview(r) == surrogate_to_json_view(*g),
{
    let v = vec![
        kv("id", num(g.id as i64)),
        kv("process_name", JsonValue::string(g.process_name.as_str())),
        kv("operator", JsonValue::string(g.operator.as_str())),
        kv("surrogate", JsonValue::string(g.surrogate.as_str())),
        kv("start_time", opt_text(&g.start_time)),
        kv("end_time", opt_text(&g.end_time)),
        kv("enabled", num(g.enabled as i64)),
        kv("create_time", opt_text(&g.create_time)),
        kv("create_user", opt_text(&g.create_user)),
        kv("update_time", opt_text(&g.update_time)),
        kv("update_user", opt_text(&g.update_user)),
    ];
    proof {
        crate::json::lemma_jview_entries(v@);
    }
    assert(jview_entries(v@) =~= seq![
        ("id"@, JView::Number(g.id as int, 0)),
        ("process_name"@, JView::Str(g.process_name@)),
        ("operator"@, JView::Str(g.operator@)),
        ("surrogate"@, JView::Str(g.surrogate@)),
        ("start_time"@, jtext(crate::model::opt_view(g.start_time))),
        ("end_time"@, jtext(crate::model::opt_view(g.end_time))),
        ("enabled"@, JView::Number(g.enabled as int, 0)),
        ("create_time"@, jtext(crate::model::opt_view(g.create_time))),
        ("create_user"@, jtext(crate::model::opt_view(g.create_user))),
        ("update_time"@, jtext(crate::model::opt_view(g.update_time))),
        ("update_user"@, jtext(crate::model::opt_view(g.update_user))),
    ]);
    JsonValue::object(v)
}


// ─────────────── variables and forms ───────────────

/// The variables as an object.
pub fn flow_data_to_object(vars: &crate::json::FlowData) -> (r: JsonValue)
    ensures
        jview(r) == JView::Object(vars.kv()),
{
    let es = vars.entries();
    let mut out: Vec<(String, JsonValue)> = Vec::new();
    let mut i: usize = 0;
    while i < es.len()
        invariant
            0 <= i <= es.len(),
            jview_entries(out@) == jview_entries(es@.take(i as int)),
        decreases es.len() - i,
    {
        let k = es[i].0.clone();
        let x = es[i].1.dup();
        let ghost before = out@;
        out.push((k, x));
        proof {
            lemma_jview_entries_push(before, (k, x));
            assert(es@.take(i + 1) =~= es@.take(i as int).push(es@[i as int]));
            lemma_jview_entries_push(es@.take(i as int), es@[i as int]);
        }
        i = i + 1;
    }
    assert(es@.take(es.len() as int) =~= es@);
    JsonValue::Object(out)
}

/// The form entries of a map: each key that starts with `p`, both as it is and without `p`.
pub open spec fn form_entries(es: Seq<(Seq<char>, JView)>, p: Seq<char>) -> Seq<(Seq<char>, JView)>
    decreases es.len(),
{
    if es.len() == 0 {
        Seq::empty()
    } else {
        let prev = form_entries(es.drop_last(), p);
        let (k, v) = es.last();
        if crate::text::starts_with(k, p) {
            prev.push((k, v)).push((k.skip(p.len() as int), v))
        } else {
            prev
        }
    }
}

/// The form entries of object entries (see `form_entries`).
pub fn form_data_of_entries(es: &Vec<(String, JsonValue)>, prefix: &str) -> (r: JsonValue)
    ensures
        jview(r) == JView::Object(form_entries(jview_entries(es@), prefix@)),
{
    let pc = crate::text::chars_of(prefix);
    let mut out: Vec<(String, JsonValue)> = Vec::new();
    let mut i: usize = 0;
    while i < es.len()
        invariant
            0 <= i <= es.len(),
            pc@ == prefix@,
            jview_entries(out@) == form_entries(jview_entries(es@.take(i as int)), prefix@),
        decreases es.len() - i,
    {
        proof {
            assert(es@.take(i + 1) =~= es@.take(i as int).push(es@[i as int]));
            lemma_jview_entries_push(es@.take(i as int), es@[i as int]);
            assert(jview_entries(es@.take(i + 1)).drop_last() =~= jview_entries(es@.take(i as int)));
        }
        let k = &es[i].0;
        if crate::text::has_prefix(k.as_str(), prefix) {
            let kc = crate::text::chars_of(k.as_str());
            let short = crate::text::string_of_range(&kc, pc.len(), kc.len());
            let a = es[i].1.dup();
            let b = es[i].1.dup();
            let kk = k.clone();
            let ghost before = out@;
            out.push((kk, a));
            proof {
                lemma_jview_entries_push(before, (kk, a));
            }
            let ghost mid = out@;
            out.push((short, b));
            proof {
                lemma_jview_entries_push(mid, (short, b));
                assert(short@ =~= k@.skip(prefix@.len() as int));
            }
        }
        i = i + 1;
    }
    assert(es@.take(es.len() as int) =~= es@);
    JsonValue::Object(out)
}

/// The form entries of variables (see `form_entries`).
pub fn form_data_of_flow(vars: &crate::json::FlowData, prefix: &str) -> (r: JsonValue)
    ensures
        jview(r) == JView::Object(form_entries(vars.kv(), prefix@)),
{
    form_data_of_entries(vars.entries(), prefix)
}

/// What a stored text reads as: nothing when it is blank or does not parse.
pub open spec fn graph_of(content: Seq<char>) -> Option<JView> {
    let t = crate::text::trim(content);
    if t.len() == 0 {
        None
    } else {
        crate::json_parse::json_read(t)
    }
}

/// The entries of the object a text holds: none when it is absent, blank, does not parse or is
/// not an object.
pub open spec fn json_map(s: Option<Seq<char>>) -> Seq<(Seq<char>, JView)> {
    match s {
        Some(t) => match graph_of(t) {
            Some(JView::Object(es)) => es,
            _ => Seq::empty(),
        },
        None => Seq::empty(),
    }
}

/// The graph a define or design holds: `None` for blank text or text that does not parse.
pub fn parse_graph(content: &str) -> (r: Option<JsonValue>)
    ensures
        crate::text::trim(content@).len() == 0 ==> r is None,
        match r {
            Some(v) => graph_of(content@) == Some(jview(v)),
            None => graph_of(content@) is None,
        },
{
    let t = crate::text::trim_str(content);
    let tc = crate::text::chars_of(t.as_str());
    if tc.len() == 0 {
        return None;
    }
    match crate::json_parse::parse_json(t.as_str()) {
        Ok(v) => Some(v),
        Err(_) => None,
    }
}


/// The entries of the object a text holds: none when it is absent, blank, does not parse, or
/// is not an object.
pub fn parse_json_map(s: &Option<String>) -> (r: Vec<(String, JsonValue)>)
    ensures
        match s {
            None => r@.len() == 0,
            Some(t) => crate::text::trim(t@).len() == 0 ==> r@.len() == 0,
        },
        jview_entries(r@) == json_map(crate::model::opt_view(*s)),
{
    match s {
        Some(raw) => match parse_graph(raw.as_str()) {
            Some(JsonValue::Object(es)) => es,
            _ => Vec::new(),
        },
        None => Vec::new(),
    }
}

/// Field `k` of an object.
pub open spec fn obj_field(v: JView, k: Seq<char>) -> Option<JView> {
    match v {
        JView::Object(es) => crate::json::entry_lookup(es, k),
        _ => None,
    }
}

pub open spec fn first_task_in(ns: Seq<JView>) -> Option<Seq<char>>
    decreases ns.len(),
{
    if ns.len() == 0 {
        None
    } else if obj_field(ns[0], "type"@) == Some(JView::Str("snaker:task"@)) {
        match obj_field(ns[0], "id"@) {
            Some(JView::Str(t)) => Some(t),
            _ => None,
        }
    } else {
        first_task_in(ns.drop_first())
    }
}

/// The id of the first task node of a graph (`None` when that node's id is not a text).
pub open spec fn first_task_node(g: JView) -> Option<Seq<char>> {
    match obj_field(g, "nodes"@) {
        Some(JView::Array(ns)) => first_task_in(ns),
        _ => None,
    }
}

/// The id of the first task node of a graph (see `first_task_node`).
pub fn first_task_node_id(g: &JsonValue) -> (r: Option<String>)
    ensures
        crate::model::opt_view(r) == first_task_node(jview(*g)),
{
    let nodes = match g.get("nodes") {
        Some(n) => n,
        None => {
            return None;
        },
    };
    let items = match nodes.as_array() {
        Some(a) => a,
        None => {
            return None;
        },
    };
    let ghost ns = jview_list(items@);
    proof {
        crate::json::lemma_jview_list(items@);
        assert(ns.skip(0) =~= ns);
    }
    assert(first_task_node(jview(*g)) == first_task_in(ns));
    let mut i: usize = 0;
    while i < items.len()
        invariant
            0 <= i <= items.len(),
            ns.len() == items@.len(),
            first_task_node(jview(*g)) == first_task_in(ns),
            forall|j: int| 0 <= j < items@.len() ==> #[trigger] ns[j] == jview(items@[j]),
            first_task_in(ns.skip(i as int)) == first_task_in(ns),
        decreases items.len() - i,
    {
        assert(ns.skip(i as int)[0] == ns[i as int]);
        assert(ns.skip(i as int).drop_first() =~= ns.skip(i + 1));
        let n = &items[i];
        let is_task = match n.get_str("type") {
            Some(t) => str_eq(t, "snaker:task"),
            None => false,
        };
        proof {
            reveal_strlit("snaker:task");
        }
        assert(ns[i as int] == jview(*n));
        if is_task {
            assert(obj_field(ns[i as int], "type"@) == Some(JView::Str("snaker:task"@)));
            let r = match n.get_str("id") {
                Some(t) => Some(owned(t)),
                None => None,
            };
            assert(crate::model::opt_view(r) == match obj_field(jview(*n), "id"@) {
                Some(JView::Str(t)) => Some(t),
                _ => None,
            });
            assert(first_task_in(ns.skip(i as int)) == match obj_field(ns[i as int], "id"@) {
                Some(JView::Str(t)) => Some(t),
                _ => None,
            });
            return r;
        }
        i = i + 1;
    }
    None
}

/// The view of a design history row (its content as text).
pub open spec fn design_his_view(h: crate::model::ProcessDesignHis) -> JView {
    JView::Object(seq![
        ("id"@, JView::Number(h.id as int, 0)),
        ("process_design_id"@, JView::Number(h.process_design_id as int, 0)),
        ("content"@, JView::Str(crate::model::lossy_text(h.content@))),
        ("create_time"@, jtext(crate::model::opt_view(h.create_time))),
        ("create_user"@, jtext(crate::model::opt_view(h.create_user))),
    ])
}

/// The view of a design history row (see `design_his_view`).
pub fn design_his_to_json(h: &crate::model::ProcessDesignHis) -> (r: JsonValue)
    ensures
        jview(r) == design_his_view(*h),
{
    let content = crate::model::utf8_lossy(h.content.as_slice());
    let v = vec![
        kv("id", num(h.id)),
        kv("process_design_id", num(h.process_design_id)),
        kv("content", JsonValue::Str(content)),
        kv("create_time", opt_text(&h.create_time)),
        kv("create_user", opt_text(&h.create_user)),
    ];
    proof {
        crate::json::lemma_jview_entries(v@);
    }
    assert(jview_entries(v@) =~= seq![
        ("id"@, JView::Number(h.id as int, 0)),
        ("process_design_id"@, JView::Number(h.process_design_id as int, 0)),
        ("content"@, JView::Str(crate::model::lossy_text(h.content@))),
        ("create_time"@, jtext(crate::model::opt_view(h.create_time))),
        ("create_user"@, jtext(crate::model::opt_view(h.create_user))),
    ]);
    JsonValue::object(v)
}

/// The paging envelope: `pageNum`, `pageSize`, `recordCount`, `totalPage` and `rows`.
pub open spec fn page_view(page_num: i64, page_size: i64, record_count: i64, total_page: i64, rows: Seq<JView>) -> JView {
    JView::Object(seq![
        ("pageNum"@, JView::Number(page_num as int, 0)),
        ("pageSize"@, JView::Number(page_size as int, 0)),
        ("recordCount"@, JView::Number(record_count as int, 0)),
        ("totalPage"@, JView::Number(total_page as int, 0)),
        ("rows"@, JView::Array(rows)),
    ])
}

/// The paging envelope (see `page_view`).
pub fn page_to_json(page: crate::model::PageResult<JsonValue>) -> (r: JsonValue)
    ensures
        jview(r) == page_view(page.page_num, page.page_size, page.record_count, page.total_page, jview_list(page.rows@)),
{
    let ghost rows = jview_list(page.rows@);
    let v = vec![
        kv("pageNum", num(page.page_num)),
        kv("pageSize", num(page.page_size)),
        kv("recordCount", num(page.record_count)),
        kv("totalPage", num(page.total_page)),
        kv("rows", JsonValue::Array(page.rows)),
    ];
    proof {
        crate::json::lemma_jview_entries(v@);
    }
    assert(jview_entries(v@) =~= seq![
        ("pageNum"@, JView::Number(page.page_num as int, 0)),
        ("pageSize"@, JView::Number(page.page_size as int, 0)),
        ("recordCount"@, JView::Number(page.record_count as int, 0)),
        ("totalPage"@, JView::Number(page.total_page as int, 0)),
        ("rows"@, JView::Array(rows)),
    ]);
    JsonValue::object(v)
}


/// Texts as a JSON array of strings.
pub open spec fn str_items(s: Seq<Seq<char>>) -> Seq<JView> {
    s.map_values(|t: Seq<char>| JView::Str(t))
}

/// Texts as a JSON array (see `str_items`).
pub fn strings_to_json(v: &Vec<String>) -> (r: JsonValue)
    ensures
        jview(r) == JView::Array(str_items(crate::text::views(v@))),
{
    let mut out: Vec<JsonValue> = Vec::new();
    let mut i: usize = 0;
    while i < v.len()
        invariant
            0 <= i <= v.len(),
            jview_list(out@) == str_items(crate::text::views(v@.take(i as int))),
        decreases v.len() - i,
    {
        let x = JsonValue::Str(v[i].clone());
        let ghost before = out@;
        out.push(x);
        proof {
            lemma_jview_list_push(before, x);
            assert(str_items(crate::text::views(v@.take(i + 1))) =~= str_items(crate::text::views(v@.take(i as int))).push(JView::Str(v@[i as int]@)));
        }
        i = i + 1;
    }
    assert(v@.take(v.len() as int) =~= v@);
    JsonValue::Array(out)
}

/// The view of a task (detail and instance task lists).
pub open spec fn task_vo_view(t: crate::model::ProcessTask) -> JView {
    JView::Object(seq![
        ("id"@, JView::Number(t.task_id as int, 0)),
        ("process_instance_id"@, JView::Number(t.process_instance_id as int, 0)),
        ("task_name"@, JView::Str(t.task_name@)),
        ("display_name"@, JView::Str(t.display_name@)),
        ("task_type"@, JView::Number(t.task_type as int, 0)),
        ("perform_type"@, JView::Number(t.perform_type as int, 0)),
        ("task_state"@, JView::Number(t.task_state as int, 0)),
        ("operator"@, jtext(crate::model::opt_view(t.actor_id))),
        ("form_key"@, jtext(crate::model::opt_view(t.form_key))),
        ("task_parent_id"@, jint(match t.parent_task_id { Some(n) => Some(n as int), None => None })),
        ("task_actor_id_list"@, JView::Array(str_items(crate::text::views(t.actor_ids@)))),
        ("task_form_data"@, JView::Object(form_entries(t.variables.kv(), "tf_"@))),
        ("finish_time"@, jtext(crate::model::opt_view(t.finish_time))),
        ("create_time"@, jtext(crate::model::opt_view(t.create_time))),
    ])
}

/// The view of a task (see `task_vo_view`).
pub fn task_vo(t: &crate::model::ProcessTask) -> (r: JsonValue)
    ensures
        jview(r) == task_vo_view(*t),
{
    let v = vec![
        kv("id", num(t.task_id)),
        kv("process_instance_id", num(t.process_instance_id)),
        kv("task_name", JsonValue::string(t.task_name.as_str())),
        kv("display_name", JsonValue::string(t.display_name.as_str())),
        kv("task_type", num(t.task_type as i64)),
        kv("perform_type", num(t.perform_type as i64)),
        kv("task_state", num(t.task_state as i64)),
        kv("operator", opt_text(&t.actor_id)),
        kv("form_key", opt_text(&t.form_key)),
        kv("task_parent_id", opt_i64(t.parent_task_id)),
        kv("task_actor_id_list", strings_to_json(&t.actor_ids)),
        kv("task_form_data", form_data_of_flow(&t.variables, "tf_")),
        kv("finish_time", opt_text(&t.finish_time)),
        kv("create_time", opt_text(&t.create_time)),
    ];
    proof {
        crate::json::lemma_jview_entries(v@);
    }
    assert(jview_entries(v@) =~= seq![
        ("id"@, JView::Number(t.task_id as int, 0)),
        ("process_instance_id"@, JView::Number(t.process_instance_id as int, 0)),
        ("task_name"@, JView::Str(t.task_name@)),
        ("display_name"@, JView::Str(t.display_name@)),
        ("task_type"@, JView::Number(t.task_type as int, 0)),
        ("perform_type"@, JView::Number(t.perform_type as int, 0)),
        ("task_state"@, JView::Number(t.task_state as int, 0)),
        ("operator"@, jtext(crate::model::opt_view(t.actor_id))),
        ("form_key"@, jtext(crate::model::opt_view(t.form_key))),
        ("task_parent_id"@, jint(match t.parent_task_id { Some(n) => Some(n as int), None => None })),
        ("task_actor_id_list"@, JView::Array(str_items(crate::text::views(t.actor_ids@)))),
        ("task_form_data"@, JView::Object(form_entries(t.variables.kv(), "tf_"@))),
        ("finish_time"@, jtext(crate::model::opt_view(t.finish_time))),
        ("create_time"@, jtext(crate::model::opt_view(t.create_time))),
    ]);
    JsonValue::object(v)
}


/// The view of a todo or done row; `ext` is the task's variables (the instance's when the
/// task has none), `iext` the instance's, `var` the entries the task's variable text holds.
pub open spec fn task_row_view(r: crate::model::TaskRow, ext: Seq<(Seq<char>, JView)>, iext: Seq<(Seq<char>, JView)>, var: Seq<(Seq<char>, JView)>) -> JView {
    JView::Object(seq![
        ("id"@, JView::Number(r.id as int, 0)),
        ("process_instance_id"@, JView::Number(r.process_instance_id as int, 0)),
        ("task_name"@, JView::Str(r.task_name@)),
        ("display_name"@, JView::Str(r.display_name@)),
        ("task_type"@, JView::Number(r.task_type as int, 0)),
        ("perform_type"@, JView::Number(r.perform_type as int, 0)),
        ("task_state"@, JView::Number(r.task_state as int, 0)),
        ("operator"@, jtext(crate::model::opt_view(r.operator))),
        ("finish_time"@, jtext(crate::model::opt_view(r.finish_time))),
        ("expire_time"@, jtext(crate::model::opt_view(r.expire_time))),
        ("form_key"@, jtext(crate::model::opt_view(r.form_key))),
        ("task_parent_id"@, jint(match r.task_parent_id { Some(n) => Some(n as int), None => None })),
        ("variable"@, jtext(crate::model::opt_view(r.variable))),
        ("create_time"@, jtext(crate::model::opt_view(r.create_time))),
        ("create_user"@, jtext(crate::model::opt_view(r.create_user))),
        ("update_time"@, jtext(crate::model::opt_view(r.update_time))),
        ("update_user"@, jtext(crate::model::opt_view(r.update_user))),
        ("process_define_name"@, jtext(crate::model::opt_view(r.define_name))),
        ("process_define_display_name"@, jtext(crate::model::opt_view(r.define_display_name))),
        ("ext"@, JView::Object(ext)),
        ("instance_ext"@, JView::Object(iext)),
        ("instance_create_time"@, jtext(crate::model::opt_view(r.instance_create_time))),
        ("version"@, jint(match r.define_version { Some(n) => Some(n as int), None => None })),
        ("task_form_data"@, JView::Object(form_entries(var, "tf_"@))),
    ])
}

/// The view of a todo or done row (see `task_row_view`): the variable texts are read as
/// objects, with the instance's variables standing in when the task's are empty.
pub fn task_row_to_json(r: &crate::model::TaskRow) -> (j: JsonValue)
    ensures
        ({
            let var = json_map(crate::model::opt_view(r.variable));
            let iext = json_map(crate::model::opt_view(r.instance_variable));
            jview(j) == task_row_view(*r, if var.len() == 0 { iext } else { var }, iext, var)
        }),
{
    let iext_v = parse_json_map(&r.instance_variable);
    let var_map = parse_json_map(&r.variable);
    let ext_v = if var_map.len() == 0 {
        clone_entries(&iext_v)
    } else {
        clone_entries(&var_map)
    };
    let ghost ext = jview_entries(ext_v@);
    let ghost iext = jview_entries(iext_v@);
    let ghost var = jview_entries(var_map@);
    proof {
        crate::json::lemma_jview_entries(var_map@);
    }
    let tfd = form_data_of_entries(&var_map, "tf_");
    let v = vec![
        kv("id", num(r.id)),
        kv("process_instance_id", num(r.process_instance_id)),
        kv("task_name", JsonValue::string(r.task_name.as_str())),
        kv("display_name", JsonValue::string(r.display_name.as_str())),
        kv("task_type", num(r.task_type as i64)),
        kv("perform_type", num(r.perform_type as i64)),
        kv("task_state", num(r.task_state as i64)),
        kv("operator", opt_text(&r.operator)),
        kv("finish_time", opt_text(&r.finish_time)),
        kv("expire_time", opt_text(&r.expire_time)),
        kv("form_key", opt_text(&r.form_key)),
        kv("task_parent_id", opt_i64(r.task_parent_id)),
        kv("variable", opt_text(&r.variable)),
        kv("create_time", opt_text(&r.create_time)),
        kv("create_user", opt_text(&r.create_user)),
        kv("update_time", opt_text(&r.update_time)),
        kv("update_user", opt_text(&r.update_user)),
        kv("process_define_name", opt_text(&r.define_name)),
        kv("process_define_display_name", opt_text(&r.define_display_name)),
        kv("ext", JsonValue::Object(ext_v)),
        kv("instance_ext", JsonValue::Object(iext_v)),
        kv("instance_create_time", opt_text(&r.instance_create_time)),
        kv("version", opt_i32(r.define_version)),
        kv("task_form_data", tfd),
    ];
    proof {
        crate::json::lemma_jview_entries(v@);
    }
    assert(jview_entries(v@) =~= seq![
        ("id"@, JView::Number(r.id as int, 0)),
        ("process_instance_id"@, JView::Number(r.process_instance_id as int, 0)),
        ("task_name"@, JView::Str(r.task_name@)),
        ("display_name"@, JView::Str(r.display_name@)),
        ("task_type"@, JView::Number(r.task_type as int, 0)),
        ("perform_type"@, JView::Number(r.perform_type as int, 0)),
        ("task_state"@, JView::Number(r.task_state as int, 0)),
        ("operator"@, jtext(crate::model::opt_view(r.operator))),
        ("finish_time"@, jtext(crate::model::opt_view(r.finish_time))),
        ("expire_time"@, jtext(crate::model::opt_view(r.expire_time))),
        ("form_key"@, jtext(crate::model::opt_view(r.form_key))),
        ("task_parent_id"@, jint(match r.task_parent_id { Some(n) => Some(n as int), None => None })),
        ("variable"@, jtext(crate::model::opt_view(r.variable))),
        ("create_time"@, jtext(crate::model::opt_view(r.create_time))),
        ("create_user"@, jtext(crate::model::opt_view(r.create_user))),
        ("update_time"@, jtext(crate::model::opt_view(r.update_time))),
        ("update_user"@, jtext(crate::model::opt_view(r.update_user))),
        ("process_define_name"@, jtext(crate::model::opt_view(r.define_name))),
        ("process_define_display_name"@, jtext(crate::model::opt_view(r.define_display_name))),
        ("ext"@, JView::Object(ext)),
        ("instance_ext"@, JView::Object(iext)),
        ("instance_create_time"@, jtext(crate::model::opt_view(r.instance_create_time))),
        ("version"@, jint(match r.define_version { Some(n) => Some(n as int), None => None })),
        ("task_form_data"@, JView::Object(form_entries(var, "tf_"@))),
    ]);
    let out = JsonValue::object(v);
    assert(var.len() == 0 ==> ext == iext);
    assert(jview(out) == task_row_view(*r, ext, iext, var));
    out
}

/// A copy of object entries.
pub fn clone_entries(es: &Vec<(String, JsonValue)>) -> (r: Vec<(String, JsonValue)>)
    ensures
        jview_entries(r@) == jview_entries(es@),
        r@.len() == es@.len(),
{
    let mut out: Vec<(String, JsonValue)> = Vec::new();
    let mut i: usize = 0;
    while i < es.len()
        invariant
            0 <= i <= es.len(),
            out@.len() == i,
            jview_entries(out@) == jview_entries(es@.take(i as int)),
        decreases es.len() - i,
    {
        let k = es[i].0.clone();
        let x = es[i].1.dup();
        let ghost before = out@;
        out.push((k, x));
        proof {
            lemma_jview_entries_push(before, (k, x));
            assert(es@.take(i + 1) =~= es@.take(i as int).push(es@[i as int]));
            lemma_jview_entries_push(es@.take(i as int), es@[i as int]);
        }
        i = i + 1;
    }
    assert(es@.take(es.len() as int) =~= es@);
    out
}

/// The view of an instance row; `ext` is the entries its variable text holds.
pub open spec fn instance_row_view(r: crate::model::InstanceRow, ext: Seq<(Seq<char>, JView)>) -> JView {
    JView::Object(seq![
        ("id"@, JView::Number(r.id as int, 0)),
        ("parent_id"@, jint(match r.parent_id { Some(n) => Some(n as int), None => None })),
        ("process_define_id"@, JView::Number(r.process_define_id as int, 0)),
        ("state"@, JView::Number(r.state as int, 0)),
        ("parent_node_name"@, jtext(crate::model::opt_view(r.parent_node_name))),
        ("business_no"@, jtext(crate::model::opt_view(r.business_no))),
        ("operator"@, JView::Str(r.operator@)),
        ("expire_time"@, jtext(crate::model::opt_view(r.expire_time))),
        ("variable"@, jtext(crate::model::opt_view(r.variable))),
        ("create_time"@, jtext(crate::model::opt_view(r.create_time))),
        ("create_user"@, jtext(crate::model::opt_view(r.create_user))),
        ("update_time"@, jtext(crate::model::opt_view(r.update_time))),
        ("update_user"@, jtext(crate::model::opt_view(r.update_user))),
        ("process_define_name"@, jtext(crate::model::opt_view(r.define_name))),
        ("process_define_display_name"@, jtext(crate::model::opt_view(r.define_display_name))),
        ("process_define_version"@, jint(match r.define_version { Some(n) => Some(n as int), None => None })),
        ("ext"@, JView::Object(ext)),
        ("display_name"@, jtext(crate::model::opt_view(r.define_display_name))),
        ("version"@, jint(match r.define_version { Some(n) => Some(n as int), None => None })),
    ])
}

/// The view of an instance row (see `instance_row_view`); its variable text is read as an
/// object.
pub fn instance_row_to_json(r: &crate::model::InstanceRow) -> (j: JsonValue)
    ensures
        jview(j) == instance_row_view(*r, json_map(crate::model::opt_view(r.variable))),
{
    let ext_v = parse_json_map(&r.variable);
    let ghost ext = jview_entries(ext_v@);
    let v = vec![
        kv("id", num(r.id)),
        kv("parent_id", opt_i64(r.parent_id)),
        kv("process_define_id", num(r.process_define_id)),
        kv("state", num(r.state as i64)),
        kv("parent_node_name", opt_text(&r.parent_node_name)),
        kv("business_no", opt_text(&r.business_no)),
        kv("operator", JsonValue::string(r.operator.as_str())),
        kv("expire_time", opt_text(&r.expire_time)),
        kv("variable", opt_text(&r.variable)),
        kv("create_time", opt_text(&r.create_time)),
        kv("create_user", opt_text(&r.create_user)),
        kv("update_time", opt_text(&r.update_time)),
        kv("update_user", opt_text(&r.update_user)),
        kv("process_define_name", opt_text(&r.define_name)),
        kv("process_define_display_name", opt_text(&r.define_display_name)),
        kv("process_define_version", opt_i32(r.define_version)),
        kv("ext", JsonValue::Object(ext_v)),
        kv("display_name", opt_text(&r.define_display_name)),
        kv("version", opt_i32(r.define_version)),
    ];
    proof {
        crate::json::lemma_jview_entries(v@);
    }
    assert(jview_entries(v@) =~= seq![
        ("id"@, JView::Number(r.id as int, 0)),
        ("parent_id"@, jint(match r.parent_id { Some(n) => Some(n as int), None => None })),
        ("process_define_id"@, JView::Number(r.process_define_id as int, 0)),
        ("state"@, JView::Number(r.state as int, 0)),
        ("parent_node_name"@, jtext(crate::model::opt_view(r.parent_node_name))),
        ("business_no"@, jtext(crate::model::opt_view(r.business_no))),
        ("operator"@, JView::Str(r.operator@)),
        ("expire_time"@, jtext(crate::model::opt_view(r.expire_time))),
        ("variable"@, jtext(crate::model::opt_view(r.variable))),
        ("create_time"@, jtext(crate::model::opt_view(r.create_time))),
        ("create_user"@, jtext(crate::model::opt_view(r.create_user))),
        ("update_time"@, jtext(crate::model::opt_view(r.update_time))),
        ("update_user"@, jtext(crate::model::opt_view(r.update_user))),
        ("process_define_name"@, jtext(crate::model::opt_view(r.define_name))),
        ("process_define_display_name"@, jtext(crate::model::opt_view(r.define_display_name))),
        ("process_define_version"@, jint(match r.define_version { Some(n) => Some(n as int), None => None })),
        ("ext"@, JView::Object(ext)),
        ("display_name"@, jtext(crate::model::opt_view(r.define_display_name))),
        ("version"@, jint(match r.define_version { Some(n) => Some(n as int), None => None })),
    ]);
    let out = JsonValue::object(v);
    assert(jview(out) == instance_row_view(*r, ext));
    out
}


// ─────────────── time fields ───────────────

/// What chrono reads from `t` under the format `fmt`, written back as `%Y-%m-%d %H:%M:%S`
/// (`None` when it does not read).
pub uninterp spec fn chrono_reformat(t: Seq<char>, fmt: Seq<char>) -> Option<Seq<char>>;

/// `chrono::NaiveDateTime::parse_from_str(t, fmt)`, formatted `%Y-%m-%d %H:%M:%S` when it
/// reads. The contract names the result; it depends on the two texts alone.
#[verifier::external_body]
fn reformat_datetime(t: &str, fmt: &str) -> (r: Option<String>)
    ensures
        crate::model::opt_view(r) == chrono_reformat(t@, fmt@),
{
    match chrono::NaiveDateTime::parse_from_str(t, fmt) {
        Ok(dt) => Some(dt.format("%Y-%m-%d %H:%M:%S").to_string()),
        Err(_) => None,
    }
}

pub open spec fn time_key(k: Seq<char>) -> bool {
    ends_with(k, "Time"@) || ends_with(k, "_time"@)
}

pub open spec fn all_ascii(s: Seq<char>) -> bool {
    forall|i: int| 0 <= i < s.len() ==> (#[trigger] s[i]) as u32 <= 0x7f
}

/// `yyyy-MM-ddTHH:mm:ss…` cut to `yyyy-MM-dd HH:mm:ss`, when its first 19 characters are ASCII
/// with a `T` at the 11th.
pub open spec fn iso_cut(t: Seq<char>) -> Option<Seq<char>> {
    if t.len() >= 19 && all_ascii(t.subrange(0, 19)) && t[10] == 'T' {
        Some(t.subrange(0, 10) + seq![' '] + t.subrange(11, 19))
    } else {
        None
    }
}

/// A time field's value: `NOW()` (or `NOW`) is `now`; an ISO date-time is rewritten
/// `yyyy-MM-dd HH:mm:ss`; anything else is kept.
pub open spec fn time_value_of(v: JsonValue, now: Seq<char>) -> JView {
    match v {
        JsonValue::Str(s) => if s@ == "NOW()"@ || s@ == "NOW"@ {
            JView::Str(now)
        } else {
            let t = crate::text::trim(s@);
            match chrono_reformat(t, "%Y-%m-%dT%H:%M:%S"@) {
                Some(x) => JView::Str(x),
                None => match chrono_reformat(t, "%Y-%m-%dT%H:%M:%S%.f"@) {
                    Some(x) => JView::Str(x),
                    None => match iso_cut(t) {
                        Some(c) => if chrono_reformat(c, "%Y-%m-%d %H:%M:%S"@) is Some { JView::Str(c) } else { JView::Str(s@) },
                        None => JView::Str(s@),
                    },
                },
            }
        },
        _ => jview(v),
    }
}

/// The value with every time field (a key ending in `Time` or `_time`) written as
/// `yyyy-MM-dd HH:mm:ss` (see `time_value_of`).
pub open spec fn times_of(v: JsonValue, now: Seq<char>) -> JView
    decreases v, 0int,
{
    match v {
        JsonValue::Array(items) => JView::Array(times_list(items@, now)),
        JsonValue::Object(entries) => JView::Object(times_entries(entries@, now)),
        _ => jview(v),
    }
}

pub open spec fn times_list(s: Seq<JsonValue>, now: Seq<char>) -> Seq<JView>
    decreases s, 1int,
{
    if s.len() == 0 {
        Seq::empty()
    } else {
        times_list(s.drop_last(), now).push(times_of(s.last(), now))
    }
}

pub open spec fn times_entries(s: Seq<(String, JsonValue)>, now: Seq<char>) -> Seq<(Seq<char>, JView)>
    decreases s, 1int,
{
    if s.len() == 0 {
        Seq::empty()
    } else {
        let k = s.last().0@;
        let v = s.last().1;
        times_entries(s.drop_last(), now).push((k, if time_key(k) { time_value_of(v, now) } else { times_of(v, now) }))
    }
}

fn is_ascii_prefix(cs: &Vec<char>, n: usize) -> (r: bool)
    requires
        n <= cs@.len(),
    ensures
        r == all_ascii(cs@.subrange(0, n as int)),
{
    let mut i: usize = 0;
    while i < n
        invariant
            0 <= i <= n <= cs@.len(),
            forall|j: int| 0 <= j < i ==> (cs@[j] as u32) <= 0x7f,
        decreases n - i,
    {
        if cs[i] as u32 > 0x7f {
            assert(cs@.subrange(0, n as int)[i as int] == cs@[i as int]);
            return false;
        }
        i = i + 1;
    }
    assert forall|j: int| 0 <= j < n implies (#[trigger] cs@.subrange(0, n as int)[j]) as u32 <= 0x7f by {
        assert(cs@.subrange(0, n as int)[j] == cs@[j]);
    }
    true
}

/// A time field's value (see `time_value_of`).
fn time_value(v: &JsonValue, now: &str) -> (r: JsonValue)
    ensures
        jview(r) == time_value_of(*v, now@),
{
    match v {
        JsonValue::Str(s) => {
            if str_eq(s.as_str(), "NOW()") || str_eq(s.as_str(), "NOW") {
                return JsonValue::string(now);
            }
            let t = crate::text::trim_str(s.as_str());
            match reformat_datetime(t.as_str(), "%Y-%m-%dT%H:%M:%S") {
                Some(x) => {
                    return JsonValue::Str(x);
                },
                None => {},
            }
            match reformat_datetime(t.as_str(), "%Y-%m-%dT%H:%M:%S%.f") {
                Some(x) => {
                    return JsonValue::Str(x);
                },
                None => {},
            }
            let cs = crate::text::chars_of(t.as_str());
            if cs.len() >= 19 && is_ascii_prefix(&cs, 19) && cs[10] == 'T' {
                let mut cut = crate::text::string_of_range(&cs, 0, 10);
                crate::text::push_char(&mut cut, ' ');
                let tail = crate::text::string_of_range(&cs, 11, 19);
                crate::text::push_str(&mut cut, tail.as_str());
                assert(cut@ =~= cs@.subrange(0, 10) + seq![' '] + cs@.subrange(11, 19));
                if reformat_datetime(cut.as_str(), "%Y-%m-%d %H:%M:%S").is_some() {
                    return JsonValue::Str(cut);
                }
            }
            JsonValue::Str(s.clone())
        },
        _ => v.dup(),
    }
}

fn is_time_key(k: &str) -> (r: bool)
    ensures
        r == time_key(k@),
{
    has_suffix(k, "Time") || has_suffix(k, "_time")
}

/// Write the time fields of the output (see `times_of`).
pub fn format_time_fields(val: &JsonValue, now: &str) -> (r: JsonValue)
    ensures
        jview(r) == times_of(*val, now@),
    decreases val,
{
    match val {
        JsonValue::Array(items) => {
            let mut out: Vec<JsonValue> = Vec::new();
            let mut i: usize = 0;
            while i < items.len()
                invariant
                    0 <= i <= items.len(),
                    jview_list(out@) == times_list(items@.take(i as int), now@),
                    *val == JsonValue::Array(*items),
                decreases items.len() - i,
            {
                proof {
                    assert(decreases_to!(*val => val->Array_0));
                    assert(decreases_to!(*items => items@));
                    assert(decreases_to!(items@ => items@[i as int]));
                }
                let x = format_time_fields(&items[i], now);
                let ghost before = out@;
                out.push(x);
                proof {
                    lemma_jview_list_push(before, x);
                    assert(items@.take(i + 1).drop_last() =~= items@.take(i as int));
                }
                i = i + 1;
            }
            assert(items@.take(items.len() as int) =~= items@);
            JsonValue::Array(out)
        },
        JsonValue::Object(entries) => {
            let mut out: Vec<(String, JsonValue)> = Vec::new();
            let mut i: usize = 0;
            while i < entries.len()
                invariant
                    0 <= i <= entries.len(),
                    jview_entries(out@) == times_entries(entries@.take(i as int), now@),
                    *val == JsonValue::Object(*entries),
                decreases entries.len() - i,
            {
                proof {
                    assert(decreases_to!(*val => val->Object_0));
                    assert(decreases_to!(*entries => entries@));
                    assert(decreases_to!(entries@ => entries@[i as int]));
                    assert(decreases_to!(entries@[i as int] => entries@[i as int].1));
                }
                let k = &entries[i].0;
                let v = &entries[i].1;
                let x = if is_time_key(k.as_str()) { time_value(v, now) } else { format_time_fields(v, now) };
                let kk = k.clone();
                let ghost before = out@;
                out.push((kk, x));
                proof {
                    lemma_jview_entries_push(before, (kk, x));
                    assert(entries@.take(i + 1).drop_last() =~= entries@.take(i as int));
                }
                i = i + 1;
            }
            assert(entries@.take(entries.len() as int) =~= entries@);
            JsonValue::Object(out)
        },
        _ => val.dup(),
    }
}

} // verus!
