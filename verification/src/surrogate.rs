//! Surrogates (delegation) at run time: the four predicates a ledger row must meet, the pick
//! among several hits, and merging the surrogates into a task's actors.

use vstd::prelude::*;
use crate::model::{clone_opt, contains_str, opt_view, ProcessSurrogate, ProcessTask, TaskView, TASK_DOING};
use crate::spi::ProcessExtRepository;
use crate::text::{
    chars_of, is_ascii_digit, owned, push_char, push_str, str_eq, string_of_range,
    text_lt, trim, trim_str, views,
};

verus! {

// ═══════════════════════ time text ═══════════════════════

pub open spec fn digits_at(t: Seq<char>, lo: int, hi: int) -> bool {
    forall|i: int| lo <= i < hi ==> is_ascii_digit(#[trigger] t[i])
}

/// Time text brought to the fixed 19-character `yyyy-MM-dd HH:mm:ss` form, in which string
/// order is time order.  Accepted after trimming: `yyyy-MM-dd HH:mm:ss`, a `T` in place of the
/// space, any tail after the seconds (milliseconds, zone), `yyyy-MM-dd HH:mm` (seconds read as
/// `00`) and a bare date (midnight).  Anything else is `None`: the bound is open on that side.
pub open spec fn normalized_time(s: Seq<char>) -> Option<Seq<char>> {
    let t = trim(s);
    if t.len() < 10 || t[4] != '-' || t[7] != '-' || !digits_at(t, 0, 4) || !digits_at(t, 5, 7)
        || !digits_at(t, 8, 10) {
        None
    } else if t.len() == 10 {
        Some(t + " 00:00:00"@)
    } else if t[10] != ' ' && t[10] != 'T' {
        None
    } else {
        let tm = t.skip(11);
        if tm.len() < 5 || tm[2] != ':' || !digits_at(tm, 0, 2) || !digits_at(tm, 3, 5) {
            None
        } else {
            let sec = if tm.len() >= 8 && tm[5] == ':' && digits_at(tm, 6, 8) {
                tm.subrange(6, 8)
            } else {
                "00"@
            };
            Some(t.take(10) + seq![' '] + tm.take(5) + seq![':'] + sec)
        }
    }
}

fn is_digit(c: char) -> (r: bool)
    ensures
        r == is_ascii_digit(c),
{
    '0' <= c && c <= '9'
}

fn digits_in(v: &Vec<char>, lo: usize, hi: usize) -> (r: bool)
    requires
        lo <= hi <= v.len(),
    ensures
        r == digits_at(v@, lo as int, hi as int),
{
    let mut i = lo;
    while i < hi
        invariant
            lo <= i <= hi <= v.len(),
            forall|j: int| lo <= j < i ==> is_ascii_digit(#[trigger] v@[j]),
        decreases hi - i,
    {
        if !is_digit(v[i]) {
            return false;
        }
        i = i + 1;
    }
    true
}

/// Bring time text to `yyyy-MM-dd HH:mm:ss`, or `None` when it is not time text.
pub fn normalize_time_text(s: &str) -> (r: Option<String>)
    ensures
        opt_view(r) == normalized_time(s@),
{
    let trimmed = trim_str(s);
    let t = chars_of(trimmed.as_str());
    let ghost tv = trim(s@);
    assert(t@ == tv);
    if t.len() < 10 || t[4] != '-' || t[7] != '-' || !digits_in(&t, 0, 4) || !digits_in(&t, 5, 7)
        || !digits_in(&t, 8, 10) {
        return None;
    }
    let mut out = string_of_range(&t, 0, 10);
    if t.len() == 10 {
        push_str(&mut out, " 00:00:00");
        proof {
            reveal_strlit(" 00:00:00");
            assert(t@.subrange(0, 10) =~= t@);
        }
        return Some(out);
    }
    if t[10] != ' ' && t[10] != 'T' {
        return None;
    }
    let ghost tm = tv.skip(11);
    let n = t.len();
    if n - 11 < 5 || t[13] != ':' || !digits_in(&t, 11, 13) || !digits_in(&t, 14, 16) {
        proof {
            if n - 11 >= 5 {
                assert(tm[2] == t@[13]);
                assert(digits_at(tm, 0, 2) == digits_at(t@, 11, 13)) by {
                    if digits_at(t@, 11, 13) {
                        assert forall|i: int| 0 <= i < 2 implies is_ascii_digit(#[trigger] tm[i]) by {
                            assert(is_ascii_digit(t@[i + 11]));
                        }
                    }
                    if digits_at(tm, 0, 2) {
                        assert forall|i: int| 11 <= i < 13 implies is_ascii_digit(#[trigger] t@[i]) by {
                            assert(is_ascii_digit(tm[i - 11]));
                        }
                    }
                }
                assert(digits_at(tm, 3, 5) == digits_at(t@, 14, 16)) by {
                    if digits_at(t@, 14, 16) {
                        assert forall|i: int| 3 <= i < 5 implies is_ascii_digit(#[trigger] tm[i]) by {
                            assert(is_ascii_digit(t@[i + 11]));
                        }
                    }
                    if digits_at(tm, 3, 5) {
                        assert forall|i: int| 14 <= i < 16 implies is_ascii_digit(#[trigger] t@[i]) by {
                            assert(is_ascii_digit(tm[i - 11]));
                        }
                    }
                }
            }
        }
        return None;
    }
    proof {
        assert(tm[2] == t@[13]);
        assert forall|i: int| 0 <= i < 2 implies is_ascii_digit(#[trigger] tm[i]) by {
            assert(is_ascii_digit(t@[i + 11]));
        }
        assert forall|i: int| 3 <= i < 5 implies is_ascii_digit(#[trigger] tm[i]) by {
            assert(is_ascii_digit(t@[i + 11]));
        }
    }
    push_char(&mut out, ' ');
    let hm = string_of_range(&t, 11, 16);
    push_str(&mut out, hm.as_str());
    push_char(&mut out, ':');
    let has_sec = n >= 19 && t[16] == ':' && digits_in(&t, 17, 19);
    proof {
        if n >= 19 {
            assert(tm[5] == t@[16]);
            assert(digits_at(tm, 6, 8) == digits_at(t@, 17, 19)) by {
                if digits_at(t@, 17, 19) {
                    assert forall|i: int| 6 <= i < 8 implies is_ascii_digit(#[trigger] tm[i]) by {
                        assert(is_ascii_digit(t@[i + 11]));
                    }
                }
                if digits_at(tm, 6, 8) {
                    assert forall|i: int| 17 <= i < 19 implies is_ascii_digit(#[trigger] t@[i]) by {
                        assert(is_ascii_digit(tm[i - 11]));
                    }
                }
            }
        }
    }
    if has_sec {
        let sec = string_of_range(&t, 17, 19);
        push_str(&mut out, sec.as_str());
        assert(sec@ =~= tm.subrange(6, 8));
    } else {
        push_str(&mut out, "00");
        proof {
            reveal_strlit("00");
        }
    }
    assert(hm@ =~= tm.take(5));
    assert(t@.subrange(0, 10) =~= tv.take(10));
    Some(out)
}

// ═══════════════════════ the four predicates ═══════════════════════

pub struct SurrogateView {
    pub id: i64,
    pub process_name: Seq<char>,
    pub operator: Seq<char>,
    pub surrogate: Seq<char>,
    pub start_time: Option<Seq<char>>,
    pub end_time: Option<Seq<char>>,
    pub enabled: i32,
    pub create_time: Option<Seq<char>>,
    pub create_user: Option<Seq<char>>,
    pub update_time: Option<Seq<char>>,
    pub update_user: Option<Seq<char>>,
}

impl View for ProcessSurrogate {
    type V = SurrogateView;

    open spec fn view(&self) -> SurrogateView {
        SurrogateView {
            id: self.id,
            process_name: self.process_name@,
            operator: self.operator@,
            surrogate: self.surrogate@,
            start_time: opt_view(self.start_time),
            end_time: opt_view(self.end_time),
            enabled: self.enabled,
            create_time: opt_view(self.create_time),
            create_user: opt_view(self.create_user),
            update_time: opt_view(self.update_time),
            update_user: opt_view(self.update_user),
        }
    }
}

/// A window bound: absent or not time text means open on that side.
pub open spec fn bound_of(b: Option<Seq<char>>) -> Option<Seq<char>> {
    match b {
        Some(t) => normalized_time(t),
        None => None,
    }
}

/// Does the ledger row delegate `operator`'s work at `time`?
///
/// 1. the process name: the exact leg asks for `process_name` itself, the all-flows leg only
///    for rows with an empty process name;
/// 2. the window `start <= now <= end`, a missing or unreadable bound is open, and empty or
///    unreadable `time` does not test the window at all;
/// 3. nobody delegates to themselves (nor to nobody);
/// 4. only `enabled == 1` is in force.
///
/// Operator and process name are compared as they are (no trimming, no case folding).
pub open spec fn surrogate_hits(sg: SurrogateView, operator: Seq<char>, process_name: Seq<char>, all_flows: bool, time: Seq<char>) -> bool {
    &&& sg.operator == operator
    &&& sg.enabled == 1
    &&& sg.surrogate != sg.operator
    &&& sg.surrogate.len() > 0
    &&& if all_flows { sg.process_name.len() == 0 } else { sg.process_name == process_name }
    &&& match normalized_time(time) {
        None => true,
        Some(now) => {
            &&& (match bound_of(sg.start_time) {
                Some(start) => !text_lt(now, start),
                None => true,
            })
            &&& (match bound_of(sg.end_time) {
                Some(end) => !text_lt(end, now),
                None => true,
            })
        },
    }
}

fn bound(b: &Option<String>) -> (r: Option<String>)
    ensures
        opt_view(r) == bound_of(opt_view(*b)),
{
    match b {
        Some(t) => normalize_time_text(t.as_str()),
        None => None,
    }
}

/// The four predicates on one ledger row.
pub fn surrogate_hit(sg: &ProcessSurrogate, operator: &str, process_name: &str, all_flows: bool, time: &str) -> (r: bool)
    ensures
        r == surrogate_hits(sg@, operator@, process_name@, all_flows, time@),
{
    if !str_eq(sg.operator.as_str(), operator) {
        return false;
    }
    if sg.enabled != 1 {
        return false;
    }
    if str_eq(sg.surrogate.as_str(), sg.operator.as_str()) || sg.surrogate.as_str().is_empty() {
        return false;
    }
    if all_flows {
        if !sg.process_name.as_str().is_empty() {
            return false;
        }
    } else if !str_eq(sg.process_name.as_str(), process_name) {
        return false;
    }
    match normalize_time_text(time) {
        None => true,
        Some(now) => {
            match bound(&sg.start_time) {
                Some(start) => {
                    if crate::text::str_lt(now.as_str(), start.as_str()) {
                        return false;
                    }
                },
                None => {},
            }
            match bound(&sg.end_time) {
                Some(end) => {
                    if crate::text::str_lt(end.as_str(), now.as_str()) {
                        return false;
                    }
                },
                None => {},
            }
            true
        },
    }
}

/// Among the first `n` rows, the index of the hit with the greatest id (the last such one on a
/// tie), or `-1`.
pub open spec fn best_hit(s: Seq<SurrogateView>, operator: Seq<char>, process_name: Seq<char>, all_flows: bool, time: Seq<char>, n: nat) -> int
    decreases n,
{
    if n == 0 {
        -1
    } else {
        let b = best_hit(s, operator, process_name, all_flows, time, (n - 1) as nat);
        if surrogate_hits(s[n - 1], operator, process_name, all_flows, time) && (b < 0 || s[b].id <= s[n - 1].id) {
            n - 1
        } else {
            b
        }
    }
}

pub proof fn lemma_best_hit(s: Seq<SurrogateView>, operator: Seq<char>, process_name: Seq<char>, all_flows: bool, time: Seq<char>, n: nat)
    requires
        n <= s.len(),
    ensures
        -1 <= best_hit(s, operator, process_name, all_flows, time, n) < n,
        best_hit(s, operator, process_name, all_flows, time, n) >= 0 ==> ({
            let b = best_hit(s, operator, process_name, all_flows, time, n);
            &&& surrogate_hits(s[b], operator, process_name, all_flows, time)
            &&& forall|j: int| 0 <= j < n && surrogate_hits(#[trigger] s[j], operator, process_name, all_flows, time)
                ==> s[j].id <= s[b].id
        }),
        best_hit(s, operator, process_name, all_flows, time, n) == -1 ==> forall|j: int| 0 <= j < n
            ==> !surrogate_hits(#[trigger] s[j], operator, process_name, all_flows, time),
    decreases n,
{
    if n > 0 {
        lemma_best_hit(s, operator, process_name, all_flows, time, (n - 1) as nat);
    }
}

/// Which row a lookup takes: the best exact hit on the process name, else the best row that
/// delegates all flows; `-1` when there is none.
pub open spec fn picked(s: Seq<SurrogateView>, operator: Seq<char>, process_name: Seq<char>, time: Seq<char>) -> int {
    let exact = best_hit(s, operator, process_name, false, time, s.len());
    if process_name.len() > 0 && exact >= 0 {
        exact
    } else {
        best_hit(s, operator, process_name, true, time, s.len())
    }
}

pub open spec fn surrogate_views(s: Seq<ProcessSurrogate>) -> Seq<SurrogateView> {
    s.map_values(|x: ProcessSurrogate| x@)
}

impl ProcessSurrogate {
    pub fn dup(&self) -> (r: ProcessSurrogate)
        ensures
            r@ == self@,
    {
        ProcessSurrogate {
            id: self.id,
            process_name: self.process_name.clone(),
            operator: self.operator.clone(),
            surrogate: self.surrogate.clone(),
            start_time: clone_opt(&self.start_time),
            end_time: clone_opt(&self.end_time),
            enabled: self.enabled,
            create_time: clone_opt(&self.create_time),
            create_user: clone_opt(&self.create_user),
            update_time: clone_opt(&self.update_time),
            update_user: clone_opt(&self.update_user),
        }
    }
}

fn best_hit_index(candidates: &[ProcessSurrogate], operator: &str, process_name: &str, all_flows: bool, time: &str) -> (r: Option<usize>)
    ensures
        match r {
            Some(i) => i as int == best_hit(surrogate_views(candidates@), operator@, process_name@, all_flows, time@, candidates@.len() as nat)
                && i < candidates@.len(),
            None => best_hit(surrogate_views(candidates@), operator@, process_name@, all_flows, time@, candidates@.len() as nat) == -1,
        },
{
    let ghost s = surrogate_views(candidates@);
    let mut best: Option<usize> = None;
    let mut i: usize = 0;
    while i < candidates.len()
        invariant
            0 <= i <= candidates.len(),
            s == surrogate_views(candidates@),
            match best {
                Some(b) => b < i && b as int == best_hit(s, operator@, process_name@, all_flows, time@, i as nat),
                None => best_hit(s, operator@, process_name@, all_flows, time@, i as nat) == -1,
            },
        decreases candidates.len() - i,
    {
        let c = &candidates[i];
        assert(s[i as int] == c@);
        if surrogate_hit(c, operator, process_name, all_flows, time) {
            match best {
                None => {
                    best = Some(i);
                },
                Some(b) => {
                    assert(s[b as int] == candidates@[b as int]@);
                    if candidates[b].id <= c.id {
                        best = Some(i);
                    }
                },
            }
        }
        i = i + 1;
    }
    best
}

/// The surrogate in force for `operator` on `process_name` at `time`: the exact leg first (when
/// a process name is given), then the all-flows leg; among several hits the greatest id wins.
pub fn pick_surrogate(candidates: &[ProcessSurrogate], operator: &str, process_name: &str, time: &str) -> (r: Option<ProcessSurrogate>)
    ensures
        ({
            let k = picked(surrogate_views(candidates@), operator@, process_name@, time@);
            match r {
                Some(x) => 0 <= k < candidates@.len() && x@ == candidates@[k]@,
                None => k == -1,
            }
        }),
{
    if !process_name.is_empty() {
        match best_hit_index(candidates, operator, process_name, false, time) {
            Some(i) => {
                return Some(candidates[i].dup());
            },
            None => {},
        }
    }
    match best_hit_index(candidates, operator, process_name, true, time) {
        Some(i) => Some(candidates[i].dup()),
        None => None,
    }
}

// ═══════════════════════ merging surrogates into the actors ═══════════════════════

/// The actors followed by the surrogates found for them (`agents[i]` for `actors[i]`), in that
/// order; a surrogate is added only when non-empty, not the actor, and not already present.
pub open spec fn merged_actors(actors: Seq<Seq<char>>, agents: Seq<Option<Seq<char>>>, n: nat) -> Seq<Seq<char>>
    decreases n,
{
    if n == 0 {
        actors
    } else {
        let prev = merged_actors(actors, agents, (n - 1) as nat);
        match agents[n - 1] {
            Some(a) => if a.len() > 0 && a != actors[n - 1] && !prev.contains(a) {
                prev.push(a)
            } else {
                prev
            },
            None => prev,
        }
    }
}

/// Every surrogate found for an actor is among the merged actors (when it is one to add).
proof fn lemma_merged_contains(actors: Seq<Seq<char>>, agents: Seq<Option<Seq<char>>>, n: nat, i: int)
    requires
        0 <= i < n,
        n <= agents.len(),
        n <= actors.len(),
        agents[i] is Some,
        agents[i].unwrap().len() > 0,
        agents[i].unwrap() != actors[i],
    ensures
        merged_actors(actors, agents, n).contains(agents[i].unwrap()),
    decreases n,
{
    let a = agents[i].unwrap();
    let prev = merged_actors(actors, agents, (n - 1) as nat);
    if i < n - 1 {
        lemma_merged_contains(actors, agents, (n - 1) as nat, i);
        let j = choose|j: int| 0 <= j < prev.len() && prev[j] == a;
        match agents[n - 1] {
            Some(b) => if b.len() > 0 && b != actors[n - 1] && !prev.contains(b) {
                assert(prev.push(b)[j] == a);
            },
            None => {},
        }
    } else {
        if prev.contains(a) {
            let j = choose|j: int| 0 <= j < prev.len() && prev[j] == a;
            if !(a.len() > 0 && a != actors[n - 1] && !prev.contains(a)) {
                assert(merged_actors(actors, agents, n)[j] == a);
            }
        } else {
            assert(prev.push(a)[prev.len() as int] == a);
        }
    }
}

/// Merging again adds nothing: the surrogates found for the actors are already there, and the
/// added surrogates are not looked up again.
pub proof fn law_merge_again_adds_nothing(actors: Seq<Seq<char>>, agents: Seq<Option<Seq<char>>>)
    requires
        agents.len() == actors.len(),
    ensures
        ({
            let m = merged_actors(actors, agents, actors.len() as nat);
            let more = agents + Seq::new((m.len() - actors.len()) as nat, |k: int| None::<Seq<char>>);
            merged_actors(m, more, m.len() as nat) == m
        }),
{
    let n = actors.len() as nat;
    let m = merged_actors(actors, agents, n);
    law_merged_actors_keeps_actors(actors, agents, n);
    let more = agents + Seq::new((m.len() - actors.len()) as nat, |k: int| None::<Seq<char>>);
    lemma_merge_again_prefix(actors, agents, m, more, m.len() as nat);
}

proof fn lemma_merge_again_prefix(
    actors: Seq<Seq<char>>,
    agents: Seq<Option<Seq<char>>>,
    m: Seq<Seq<char>>,
    more: Seq<Option<Seq<char>>>,
    k: nat,
)
    requires
        agents.len() == actors.len(),
        m == merged_actors(actors, agents, actors.len() as nat),
        m.len() >= actors.len(),
        m.take(actors.len() as int) == actors,
        more == agents + Seq::new((m.len() - actors.len()) as nat, |j: int| None::<Seq<char>>),
        k <= m.len(),
    ensures
        merged_actors(m, more, k) == m,
    decreases k,
{
    if k > 0 {
        lemma_merge_again_prefix(actors, agents, m, more, (k - 1) as nat);
        let i = k - 1;
        if i < actors.len() {
            assert(more[i] == agents[i]);
            assert(m[i] == actors[i]);
            match agents[i] {
                Some(a) => if a.len() > 0 && a != actors[i] {
                    lemma_merged_contains(actors, agents, actors.len() as nat, i);
                },
                None => {},
            }
        } else {
            assert(more[i] == None::<Seq<char>>);
        }
    }
}

/// Merge the surrogates found for each actor into the actor list.
pub fn merge_agents(actors: &[String], agents: &[Option<String>]) -> (r: Vec<String>)
    requires
        agents@.len() == actors@.len(),
    ensures
        views(r@) == merged_actors(views(actors@), crate::filter_sql::opt_views(agents@), actors@.len() as nat),
{
    let ghost av = crate::filter_sql::opt_views(agents@);
    let mut out = crate::model::clone_strings(actors);
    let mut i: usize = 0;
    while i < actors.len()
        invariant
            0 <= i <= actors.len(),
            agents@.len() == actors@.len(),
            av == crate::filter_sql::opt_views(agents@),
            views(out@) == merged_actors(views(actors@), av, i as nat),
        decreases actors.len() - i,
    {
        match &agents[i] {
            Some(agent) => {
                assert(av[i as int] == Some(agent@));
                let a = agent.as_str();
                if !a.is_empty() && !str_eq(a, actors[i].as_str()) && !contains_str(out.as_slice(), a) {
                    let ghost before = out@;
                    out.push(owned(a));
                    assert(views(out@) =~= views(before).push(a@));
                }
            },
            None => {
                assert(av[i as int] == None::<Seq<char>>);
            },
        }
        i = i + 1;
    }
    out
}

/// Merging keeps the actors first and in order, and never adds a name twice: applying it to a
/// list without duplicates gives a list without duplicates.
pub proof fn law_merged_actors_keeps_actors(actors: Seq<Seq<char>>, agents: Seq<Option<Seq<char>>>, n: nat)
    requires
        n <= agents.len(),
        n <= actors.len(),
    ensures
        merged_actors(actors, agents, n).len() >= actors.len(),
        merged_actors(actors, agents, n).take(actors.len() as int) == actors,
        actors.no_duplicates() ==> merged_actors(actors, agents, n).no_duplicates(),
    decreases n,
{
    if n > 0 {
        law_merged_actors_keeps_actors(actors, agents, (n - 1) as nat);
        let prev = merged_actors(actors, agents, (n - 1) as nat);
        match agents[n - 1] {
            Some(a) => {
                if a.len() > 0 && a != actors[n - 1] && !prev.contains(a) {
                    assert(prev.push(a).take(actors.len() as int) =~= prev.take(actors.len() as int));
                    if actors.no_duplicates() {
                        assert forall|i: int, j: int| 0 <= i < j < prev.push(a).len() implies prev.push(a)[i] != prev.push(a)[j] by {
                            if j == prev.len() {
                                assert(prev[i] == prev.push(a)[i]);
                            }
                        }
                    }
                }
            },
            None => {},
        }
    }
}

/// Each actor's surrogate in force is added after the actors (see `merged_actors`); the
/// surrogates of added names are not looked up, so delegation does not cascade.  A lookup that
/// fails counts as no surrogate.
pub fn expand_actors<R: ProcessExtRepository>(ext: &R, actors: &[String], process_name: &str, time: &str) -> (r: Vec<String>)
    ensures
        exists|agents: Seq<Option<Seq<char>>>| #[trigger] agents.len() == actors@.len() && views(r@) == merged_actors(
            views(actors@),
            agents,
            actors@.len() as nat,
        ),
{
    let mut agents: Vec<Option<String>> = Vec::new();
    let mut i: usize = 0;
    while i < actors.len()
        invariant
            0 <= i <= actors.len(),
            agents@.len() == i,
        decreases actors.len() - i,
    {
        let found = match ext.get_surrogate(actors[i].as_str(), process_name, time) {
            Ok(Some(hit)) => Some(hit.surrogate),
            _ => None,
        };
        agents.push(found);
        i = i + 1;
    }
    let r = merge_agents(actors, agents.as_slice());
    assert(crate::filter_sql::opt_views(agents@).len() == actors@.len());
    r
}

/// Before a new task is stored, the surrogates in force join its actors.  Nothing changes
/// (answer `false`) when auto-apply is off, there is no extended repository, the task is not
/// doing, it has no actors, or no surrogate was added.
pub fn apply_surrogate_to_task<R: ProcessExtRepository>(
    auto_apply: bool,
    ext: Option<&R>,
    task: &mut ProcessTask,
    process_name: &str,
) -> (r: bool)
    ensures
        !r ==> final(task)@ == old(task)@,
        r ==> auto_apply && ext is Some && old(task)@.task_state == TASK_DOING && old(task)@.actor_ids.len() > 0
            && final(task)@ == (TaskView { actor_ids: final(task)@.actor_ids, ..old(task)@ })
            && final(task)@.actor_ids.len() > old(task)@.actor_ids.len()
            && exists|agents: Seq<Option<Seq<char>>>| #[trigger] agents.len() == old(task)@.actor_ids.len()
                && final(task)@.actor_ids == merged_actors(old(task)@.actor_ids, agents, agents.len()),
        (!auto_apply || ext is None || old(task)@.task_state != TASK_DOING || old(task)@.actor_ids.len() == 0) ==> !r,
{
    if !auto_apply {
        return false;
    }
    let e = match ext {
        Some(e) => e,
        None => {
            return false;
        },
    };
    if task.task_state != TASK_DOING || task.actor_ids.len() == 0 {
        return false;
    }
    let now = crate::clock::current_time_str();
    let merged = expand_actors(e, task.actor_ids.as_slice(), process_name, now.as_str());
    if merged.len() == task.actor_ids.len() {
        return false;
    }
    proof {
        let agents = choose|agents: Seq<Option<Seq<char>>>| #[trigger] agents.len() == task.actor_ids@.len() && views(merged@) == merged_actors(
            views(task.actor_ids@),
            agents,
            task.actor_ids@.len() as nat,
        );
        law_merged_actors_keeps_actors(views(task.actor_ids@), agents, task.actor_ids@.len() as nat);
    }
    task.actor_ids = merged;
    true
}

// ═══════════════════════ ledger rows shared by the repository checks ═══════════════════════

/// A ledger row as the checks describe it; `None` is a NULL column.
#[derive(Debug, Clone, Copy)]
pub struct SgRow {
    pub id: i64,
    /// `None` is `process_name IS NULL`, `Some("")` the empty string: both delegate all flows.
    pub process_name: Option<&'static str>,
    pub operator: &'static str,
    pub surrogate: &'static str,
    pub start_time: Option<&'static str>,
    pub end_time: Option<&'static str>,
    /// `None` is `enabled IS NULL`, which is not in force.
    pub enabled: Option<i32>,
    pub note: &'static str,
}

/// The expected answer of one lookup.
#[derive(Debug, Clone, Copy)]
pub struct Expect {
    pub operator: &'static str,
    pub process_name: &'static str,
    /// `""` does not test the window.
    pub time: &'static str,
    /// The id of the row that must be picked; `None` when none may be.
    pub hit_id: Option<i64>,
    pub note: &'static str,
}

/// The moment every window of the shared rows is built around.
pub const NOW: &'static str = "2026-09-21 12:00:00";

fn opt_owned(o: Option<&str>) -> (r: Option<String>)
    ensures
        opt_view(r) == match o {
            Some(s) => Some(s@),
            None => None,
        },
{
    match o {
        Some(s) => Some(owned(s)),
        None => None,
    }
}

/// The row as the in-memory repository holds it: a NULL process name reads as empty and a NULL
/// `enabled` as `0` (the predicates answer the same).
pub fn memory_row(row: &SgRow) -> (r: ProcessSurrogate)
    ensures
        r@ == (SurrogateView {
            id: row.id,
            process_name: match row.process_name {
                Some(s) => s@,
                None => Seq::empty(),
            },
            operator: row.operator@,
            surrogate: row.surrogate@,
            start_time: match row.start_time {
                Some(s) => Some(s@),
                None => None,
            },
            end_time: match row.end_time {
                Some(s) => Some(s@),
                None => None,
            },
            enabled: match row.enabled {
                Some(e) => e,
                None => 0,
            },
            create_time: None,
            create_user: Some("parity_seed"@),
            update_time: None,
            update_user: None,
        }),
{
    ProcessSurrogate {
        id: row.id,
        process_name: match row.process_name {
            Some(s) => owned(s),
            None => String::new(),
        },
        operator: owned(row.operator),
        surrogate: owned(row.surrogate),
        start_time: opt_owned(row.start_time),
        end_time: opt_owned(row.end_time),
        enabled: match row.enabled {
            Some(e) => e,
            None => 0,
        },
        create_time: None,
        create_user: Some(owned("parity_seed")),
        update_time: None,
        update_user: None,
    }
}

} // verus!
