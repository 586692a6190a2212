//! `m_` filters pushed down: the SQL `WHERE` fragments with their bind values, and the same
//! operator semantics evaluated in memory.

use vstd::prelude::*;
use crate::model::{FilterOp, QueryFilter};
use crate::text::{
    contains_sub, csv_items, has_sub, owned, push_str, split_char, split_csv, split_on, str_eq,
    str_le, str_lt, text_le, text_lt, trim, trim_str, views,
};

verus! {

/// `?, ?, ..., ?` with `n` marks.
pub open spec fn qmarks(n: nat) -> Seq<char>
    decreases n,
{
    if n == 0 {
        Seq::empty()
    } else if n == 1 {
        "?"@
    } else {
        qmarks((n - 1) as nat) + ", ?"@
    }
}

/// The fragments and bind values of one filter whose column resolved to `col`.
///
/// `IN` with no non-empty item can match nothing (`0 = 1`); `NOT IN` with none is always true
/// (no fragment); `BETWEEN` needs exactly two comma-separated bounds, else nothing matches.
pub open spec fn where_clause(op: FilterOp, col: Seq<char>, value: Seq<char>) -> (Seq<Seq<char>>, Seq<Seq<char>>) {
    match op {
        FilterOp::Eq => (seq![col + " = ?"@], seq![value]),
        FilterOp::Ne => (seq![col + " <> ?"@], seq![value]),
        FilterOp::Gt => (seq![col + " > ?"@], seq![value]),
        FilterOp::Lt => (seq![col + " < ?"@], seq![value]),
        FilterOp::Ge => (seq![col + " >= ?"@], seq![value]),
        FilterOp::Le => (seq![col + " <= ?"@], seq![value]),
        FilterOp::Like => (seq![col + " LIKE ?"@], seq!["%"@ + value + "%"@]),
        FilterOp::In => {
            let ps = csv_items(value);
            if ps.len() == 0 {
                (seq!["0 = 1"@], Seq::empty())
            } else {
                (seq![col + " IN ("@ + qmarks(ps.len()) + ")"@], ps)
            }
        },
        FilterOp::Nin => {
            let ps = csv_items(value);
            if ps.len() == 0 {
                (Seq::empty(), Seq::empty())
            } else {
                (seq![col + " NOT IN ("@ + qmarks(ps.len()) + ")"@], ps)
            }
        },
        FilterOp::Bt => {
            let p = split_on(value, ',');
            if p.len() == 2 {
                (seq![col + " BETWEEN ? AND ?"@], seq![trim(p[0]), trim(p[1])])
            } else {
                (seq!["0 = 1"@], Seq::empty())
            }
        },
    }
}

/// The fragments and values of the first `n` filters; a filter whose column did not resolve
/// (`None`) is skipped.
pub open spec fn where_upto(fs: Seq<QueryFilter>, cols: Seq<Option<Seq<char>>>, n: nat) -> (Seq<Seq<char>>, Seq<Seq<char>>)
    decreases n,
{
    if n == 0 {
        (Seq::empty(), Seq::empty())
    } else {
        let prev = where_upto(fs, cols, (n - 1) as nat);
        match cols[n - 1] {
            None => prev,
            Some(c) => {
                let cur = where_clause(fs[n - 1].op, c, fs[n - 1].value@);
                (prev.0 + cur.0, prev.1 + cur.1)
            },
        }
    }
}

pub open spec fn opt_views(s: Seq<Option<String>>) -> Seq<Option<Seq<char>>> {
    s.map_values(|o: Option<String>| match o {
        Some(x) => Some(x@),
        None => None,
    })
}

/// `resolve` may answer `out` for the filter's alias and column.
pub open spec fn resolved_by<F: Fn(&str, &str) -> Option<String>>(resolve: F, q: QueryFilter, out: Option<String>) -> bool {
    exists|a: &str, c: &str| a@ == q.alias@ && c@ == q.column@ && #[trigger] resolve.ensures((a, c), out)
}

fn qmark_list(n: usize) -> (r: String)
    requires
        n >= 1,
    ensures
        r@ == qmarks(n as nat),
{
    let mut s = owned("?");
    let mut i: usize = 1;
    proof {
        reveal_strlit("?");
    }
    while i < n
        invariant
            1 <= i <= n,
            s@ == qmarks(i as nat),
        decreases n - i,
    {
        push_str(&mut s, ", ?");
        i = i + 1;
    }
    s
}

fn cat3(a: &str, b: &str, c: &str) -> (r: String)
    ensures
        r@ == a@ + b@ + c@,
{
    let mut s = owned(a);
    push_str(&mut s, b);
    push_str(&mut s, c);
    s
}

/// Fragments and values of one filter whose column resolved to `col`.
pub fn filter_clause(f: &QueryFilter, col: &str) -> (r: (Vec<String>, Vec<String>))
    ensures
        (views(r.0@), views(r.1@)) == where_clause(f.op, col@, f.value@),
{
    let mut frags: Vec<String> = Vec::new();
    let mut vals: Vec<String> = Vec::new();
    let v = f.value.as_str();
    match f.op {
        FilterOp::Eq => {
            frags.push(cat3(col, " = ?", ""));
            vals.push(owned(v));
        },
        FilterOp::Ne => {
            frags.push(cat3(col, " <> ?", ""));
            vals.push(owned(v));
        },
        FilterOp::Gt => {
            frags.push(cat3(col, " > ?", ""));
            vals.push(owned(v));
        },
        FilterOp::Lt => {
            frags.push(cat3(col, " < ?", ""));
            vals.push(owned(v));
        },
        FilterOp::Ge => {
            frags.push(cat3(col, " >= ?", ""));
            vals.push(owned(v));
        },
        FilterOp::Le => {
            frags.push(cat3(col, " <= ?", ""));
            vals.push(owned(v));
        },
        FilterOp::Like => {
            frags.push(cat3(col, " LIKE ?", ""));
            vals.push(cat3("%", v, "%"));
        },
        FilterOp::In => {
            let ps = split_csv(v);
            if ps.len() == 0 {
                frags.push(owned("0 = 1"));
            } else {
                let ph = qmark_list(ps.len());
                let mut fr = cat3(col, " IN (", ph.as_str());
                push_str(&mut fr, ")");
                frags.push(fr);
                vals = ps;
            }
        },
        FilterOp::Nin => {
            let ps = split_csv(v);
            if ps.len() != 0 {
                let ph = qmark_list(ps.len());
                let mut fr = cat3(col, " NOT IN (", ph.as_str());
                push_str(&mut fr, ")");
                frags.push(fr);
                vals = ps;
            }
        },
        FilterOp::Bt => {
            let p = split_char(v, ',');
            if p.len() == 2 {
                frags.push(cat3(col, " BETWEEN ? AND ?", ""));
                vals.push(trim_str(p[0].as_str()));
                vals.push(trim_str(p[1].as_str()));
            } else {
                frags.push(owned("0 = 1"));
            }
        },
    }
    proof {
        reveal_strlit("");
        assert(views(frags@) =~= where_clause(f.op, col@, f.value@).0);
        assert(views(vals@) =~= where_clause(f.op, col@, f.value@).1);
    }
    (frags, vals)
}

/// The `WHERE` fragments (each with its `?` marks) and the bind values in order, for the filters
/// whose alias and column `resolve` accepts (`Some(qualified column)`); a filter it refuses
/// (`None`) is skipped, not an error.
pub fn build_filter_where<F: Fn(&str, &str) -> Option<String>>(filters: &[QueryFilter], resolve: F) -> (r: (
    Vec<String>,
    Vec<String>,
))
    requires
        forall|a: &str, c: &str| #[trigger] resolve.requires((a, c)),
    ensures
        exists|cols: Seq<Option<String>>|
            cols.len() == filters@.len() && (forall|i: int|
                0 <= i < cols.len() ==> #[trigger] resolved_by(resolve, filters@[i], cols[i])) && (views(r.0@), views(
                r.1@,
            )) == where_upto(filters@, opt_views(cols), filters@.len() as nat),
{
    let mut frags: Vec<String> = Vec::new();
    let mut vals: Vec<String> = Vec::new();
    let ghost mut cols: Seq<Option<String>> = Seq::empty();
    let mut i: usize = 0;
    while i < filters.len()
        invariant
            0 <= i <= filters.len(),
            forall|a: &str, c: &str| #[trigger] resolve.requires((a, c)),
            cols.len() == i,
            forall|j: int| 0 <= j < i ==> #[trigger] resolved_by(resolve, filters@[j], cols[j]),
            (views(frags@), views(vals@)) == where_upto(filters@, opt_views(cols), i as nat),
        decreases filters.len() - i,
    {
        let f = &filters[i];
        let a = f.alias.as_str();
        let c = f.column.as_str();
        let out = resolve(a, c);
        let ghost old_cols = cols;
        proof {
            assert(resolved_by(resolve, filters@[i as int], out));
            cols = cols.push(out);
        }
        let ghost fr0 = views(frags@);
        let ghost va0 = views(vals@);
        match out {
            None => {},
            Some(col) => {
                let (fs, vs) = filter_clause(f, col.as_str());
                let mut k: usize = 0;
                while k < fs.len()
                    invariant
                        0 <= k <= fs.len(),
                        views(frags@) == fr0 + views(fs@).take(k as int),
                    decreases fs.len() - k,
                {
                    let ghost before = frags@;
                    frags.push(fs[k].clone());
                    assert(views(frags@) =~= views(before).push(fs@[k as int]@));
                    assert(views(fs@).take(k + 1) =~= views(fs@).take(k as int).push(fs@[k as int]@));
                    k = k + 1;
                }
                k = 0;
                while k < vs.len()
                    invariant
                        0 <= k <= vs.len(),
                        views(vals@) == va0 + views(vs@).take(k as int),
                    decreases vs.len() - k,
                {
                    let ghost before = vals@;
                    vals.push(vs[k].clone());
                    assert(views(vals@) =~= views(before).push(vs@[k as int]@));
                    assert(views(vs@).take(k + 1) =~= views(vs@).take(k as int).push(vs@[k as int]@));
                    k = k + 1;
                }
                assert(views(fs@).take(fs.len() as int) =~= views(fs@));
                assert(views(vs@).take(vs.len() as int) =~= views(vs@));
            },
        }
        proof {
            let oc = opt_views(cols);
            let prev_cols = opt_views(old_cols);
            assert(forall|j: int| 0 <= j < i ==> oc[j] == prev_cols[j]);
            lemma_where_upto_prefix(filters@, oc, prev_cols, i as nat);
            assert(oc[i as int] == match out {
                Some(x) => Some(x@),
                None => None::<Seq<char>>,
            });
            assert(forall|j: int| 0 <= j < i ==> cols[j] == old_cols[j]);
        }
        i = i + 1;
    }
    (frags, vals)
}

proof fn lemma_where_upto_prefix(
    fs: Seq<QueryFilter>,
    a: Seq<Option<Seq<char>>>,
    b: Seq<Option<Seq<char>>>,
    n: nat,
)
    requires
        n <= a.len(),
        n <= b.len(),
        forall|j: int| 0 <= j < n ==> a[j] == b[j],
    ensures
        where_upto(fs, a, n) == where_upto(fs, b, n),
    decreases n,
{
    if n > 0 {
        lemma_where_upto_prefix(fs, a, b, (n - 1) as nat);
    }
}

/// Some comma-separated item of `list`, trimmed, equals `x`.
pub open spec fn in_list(list: Seq<char>, x: Seq<char>) -> bool {
    exists|i: int| 0 <= i < split_on(list, ',').len() && #[trigger] trim(split_on(list, ',')[i]) == x
}

/// Does the string field value `x` satisfy `op` against the filter value `v`?  Comparisons are
/// string comparisons (lexicographic), as in SQL on text columns.
pub open spec fn op_holds(op: FilterOp, x: Seq<char>, v: Seq<char>) -> bool {
    match op {
        FilterOp::Eq => x == v,
        FilterOp::Ne => x != v,
        FilterOp::Like => contains_sub(x, v),
        FilterOp::Gt => text_lt(v, x),
        FilterOp::Lt => text_lt(x, v),
        FilterOp::Ge => text_le(v, x),
        FilterOp::Le => text_le(x, v),
        FilterOp::In => in_list(v, x),
        FilterOp::Nin => !in_list(v, x),
        FilterOp::Bt => {
            let p = split_on(v, ',');
            p.len() == 2 && text_le(trim(p[0]), x) && text_le(x, trim(p[1]))
        },
    }
}

fn listed(list: &str, x: &str) -> (r: bool)
    ensures
        r == in_list(list@, x@),
{
    let parts = split_char(list, ',');
    let mut i: usize = 0;
    while i < parts.len()
        invariant
            0 <= i <= parts.len(),
            views(parts@) == split_on(list@, ','),
            forall|j: int| 0 <= j < i ==> trim(split_on(list@, ',')[j]) != x@,
        decreases parts.len() - i,
    {
        let t = trim_str(parts[i].as_str());
        assert(split_on(list@, ',')[i as int] == parts@[i as int]@);
        if str_eq(t.as_str(), x) {
            return true;
        }
        i = i + 1;
    }
    false
}

/// The in-memory form of a filter: does the field value match?
pub fn op_matches(op: &FilterOp, field_val: &str, filter_val: &str) -> (r: bool)
    ensures
        r == op_holds(*op, field_val@, filter_val@),
{
    match op {
        FilterOp::Eq => str_eq(field_val, filter_val),
        FilterOp::Ne => !str_eq(field_val, filter_val),
        FilterOp::Like => has_sub(field_val, filter_val),
        FilterOp::Gt => str_lt(filter_val, field_val),
        FilterOp::Lt => str_lt(field_val, filter_val),
        FilterOp::Ge => str_le(filter_val, field_val),
        FilterOp::Le => str_le(field_val, filter_val),
        FilterOp::In => listed(filter_val, field_val),
        FilterOp::Nin => !listed(filter_val, field_val),
        FilterOp::Bt => {
            let p = split_char(filter_val, ',');
            if p.len() != 2 {
                return false;
            }
            let lo = trim_str(p[0].as_str());
            let hi = trim_str(p[1].as_str());
            str_le(lo.as_str(), field_val) && str_le(field_val, hi.as_str())
        },
    }
}

} // verus!
