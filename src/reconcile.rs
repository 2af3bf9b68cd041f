//! One reconciliation cycle of the scheduler: which domains should be
//! blocked now, whether that differs from what was last applied, and what
//! the helper must be asked to do.
use vstd::prelude::*;
use crate::domain_set::{insert_sorted, strictly_sorted};
use crate::hosts::{hosts_valid, normalize_domain, normalized, validate_hosts_content};
use crate::json::{encode_list, json_of, lemma_json_of_empty};
use crate::models::{Group, Schedule};
use crate::schedule::{
    day_list, is_active, parse_days, parse_time, time_value, views, window_active,
    ScheduleParseError, Weekday,
};
use crate::text::{chars_of, string_of, vec_views};

verus! {

broadcast use vstd::string::group_string_axioms;

/// A group with what the persistence layer holds for it.
pub struct GroupState {
    pub group: Group,
    pub schedule: Option<Schedule>,
    pub domains: Vec<String>,
}

/// The schedule's window covers minute `t` of `today`; false where a time
/// field does not parse.
pub open spec fn schedule_on(s: Schedule, today: Weekday, t: int) -> bool {
    match (time_value(s.start@), time_value(s.end@)) {
        (Some(a), Some(b)) => window_active(day_list(s.days@), a, b, today, t),
        _ => false,
    }
}

/// The group blocks its domains at minute `t` of `today`: it is enabled,
/// has a schedule whose times parse, and the window covers that minute.
pub open spec fn group_on(g: GroupState, today: Weekday, t: int) -> bool {
    g.group.enabled && match g.schedule {
        Some(s) => schedule_on(s, today, t),
        None => false,
    }
}

/// The names to block at minute `t` of `today`: the normalized domains of
/// every group that is on.
pub open spec fn desired_names(groups: Seq<GroupState>, today: Weekday, t: int) -> Set<Seq<char>> {
    Set::new(
        |n: Seq<char>|
            exists|k: int, j: int|
                0 <= k < groups.len() && group_on(groups[k], today, t) && 0 <= j
                    < groups[k].domains@.len() && n == normalized(groups[k].domains@[j]@),
    )
}

/// The names of the groups before `i`, and of the first `jj` domains of
/// group `i`, for the groups that are on.
pub open spec fn names_upto(
    groups: Seq<GroupState>,
    today: Weekday,
    t: int,
    i: int,
    jj: int,
) -> Set<Seq<char>> {
    Set::new(
        |n: Seq<char>|
            exists|k: int, j: int|
                0 <= k <= i && k < groups.len() && group_on(groups[k], today, t) && 0 <= j
                    < groups[k].domains@.len() && (k < i || j < jj) && n == normalized(
                    groups[k].domains@[j]@,
                ),
    )
}

/// Whether a schedule's window covers minute `now_minutes` of `today`.
pub fn schedule_active(s: &Schedule, today: Weekday, now_minutes: u32) -> (r: Result<
    bool,
    ScheduleParseError,
>)
    ensures
        match (time_value(s.start@), time_value(s.end@)) {
            (Some(a), Some(b)) => r == Ok::<bool, ScheduleParseError>(
                window_active(day_list(s.days@), a, b, today, now_minutes as int),
            ),
            _ => r is Err,
        },
{
    let days = parse_days(s.days.as_str());
    let start = parse_time(s.start.as_str())?;
    let end = parse_time(s.end.as_str())?;
    Ok(is_active(&days, start, end, today, now_minutes))
}

/// Whether a group blocks its domains now: a disabled group or one without
/// a schedule never does; a schedule whose times do not parse is an error.
pub fn group_active(g: &GroupState, today: Weekday, now_minutes: u32) -> (r: Result<
    bool,
    ScheduleParseError,
>)
    ensures
        !g.group.enabled ==> r == Ok::<bool, ScheduleParseError>(false),
        g.group.enabled && g.schedule is None ==> r == Ok::<bool, ScheduleParseError>(false),
        g.group.enabled && g.schedule is Some ==> match (
            time_value(g.schedule->0.start@),
            time_value(g.schedule->0.end@),
        ) {
            (Some(_), Some(_)) => r == Ok::<bool, ScheduleParseError>(
                group_on(*g, today, now_minutes as int),
            ),
            _ => r is Err,
        },
{
    if !g.group.enabled {
        return Ok(false);
    }
    match &g.schedule {
        None => Ok(false),
        Some(s) => schedule_active(s, today, now_minutes),
    }
}

/// The domains to block now, normalized, without duplicates and sorted: the
/// domains of every enabled group whose window is active. A group whose
/// schedule does not parse is skipped.
pub fn desired_domains(groups: &Vec<GroupState>, today: Weekday, now_minutes: u32) -> (r: Vec<
    String,
>)
    ensures
        strictly_sorted(views(r@)),
        views(r@).to_set() == desired_names(groups@, today, now_minutes as int),
{
    let ghost gs = groups@;
    let ghost t = now_minutes as int;
    let mut acc: Vec<Vec<char>> = Vec::new();
    assert(vec_views(acc@).to_set() =~= names_upto(gs, today, t, 0, 0));
    let mut i: usize = 0;
    while i < groups.len()
        invariant
            i <= groups.len(),
            gs == groups@,
            t == now_minutes as int,
            strictly_sorted(vec_views(acc@)),
            vec_views(acc@).to_set() == names_upto(gs, today, t, i as int, 0),
        decreases groups.len() - i,
    {
        let g = &groups[i];
        let on = match group_active(g, today, now_minutes) {
            Ok(b) => b,
            Err(_) => false,
        };
        assert(on == group_on(gs[i as int], today, t));
        if on {
            let mut j: usize = 0;
            while j < g.domains.len()
                invariant
                    i < groups.len(),
                    gs == groups@,
                    *g == gs[i as int],
                    group_on(gs[i as int], today, t),
                    j <= g.domains.len(),
                    strictly_sorted(vec_views(acc@)),
                    vec_views(acc@).to_set() == names_upto(gs, today, t, i as int, j as int),
                decreases g.domains.len() - j,
            {
                let n = normalize_domain(&g.domains[j]);
                let nc = chars_of(n.as_str());
                insert_sorted(&mut acc, nc);
                assert(names_upto(gs, today, t, i as int, j + 1) =~= names_upto(
                    gs,
                    today,
                    t,
                    i as int,
                    j as int,
                ).insert(normalized(g.domains@[j as int]@))) by {
                    let a = names_upto(gs, today, t, i as int, j + 1);
                    let b = names_upto(gs, today, t, i as int, j as int);
                    let x = normalized(g.domains@[j as int]@);
                    assert(a.contains(x)) by {
                        assert(0 <= i && group_on(gs[i as int], today, t));
                    }
                    assert forall|y: Seq<char>| a.contains(y) implies b.insert(x).contains(y) by {
                        let (k, m) = choose|k: int, m: int|
                            0 <= k <= i && k < gs.len() && group_on(gs[k], today, t) && 0 <= m
                                < gs[k].domains@.len() && (k < i || m < j + 1) && y == normalized(
                                gs[k].domains@[m]@,
                            );
                        if !(k == i && m == j) {
                            assert(b.contains(y));
                        }
                    }
                    assert forall|y: Seq<char>| b.insert(x).contains(y) implies a.contains(y) by {
                        if y != x {
                            let (k, m) = choose|k: int, m: int|
                                0 <= k <= i && k < gs.len() && group_on(gs[k], today, t) && 0 <= m
                                    < gs[k].domains@.len() && (k < i || m < j) && y == normalized(
                                    gs[k].domains@[m]@,
                                );
                            assert(a.contains(y));
                        }
                    }
                }
                j = j + 1;
            }
        }
        assert(names_upto(gs, today, t, i + 1, 0) =~= names_upto(
            gs,
            today,
            t,
            i as int,
            if on {
                gs[i as int].domains@.len() as int
            } else {
                0
            },
        )) by {
            let jj: int = if on {
                gs[i as int].domains@.len() as int
            } else {
                0
            };
            let a = names_upto(gs, today, t, i + 1, 0);
            let b = names_upto(gs, today, t, i as int, jj);
            assert forall|y: Seq<char>| a.contains(y) implies b.contains(y) by {
                let (k, m) = choose|k: int, m: int|
                    0 <= k <= i + 1 && k < gs.len() && group_on(gs[k], today, t) && 0 <= m
                        < gs[k].domains@.len() && (k < i + 1 || m < 0) && y == normalized(
                        gs[k].domains@[m]@,
                    );
                assert(b.contains(y));
            }
            assert forall|y: Seq<char>| b.contains(y) implies a.contains(y) by {
                let (k, m) = choose|k: int, m: int|
                    0 <= k <= i && k < gs.len() && group_on(gs[k], today, t) && 0 <= m
                        < gs[k].domains@.len() && (k < i || m < jj) && y == normalized(
                        gs[k].domains@[m]@,
                    );
                assert(a.contains(y));
            }
        }
        i = i + 1;
    }
    assert(names_upto(gs, today, t, i as int, 0) =~= desired_names(gs, today, t));
    let mut r: Vec<String> = Vec::new();
    let mut k: usize = 0;
    while k < acc.len()
        invariant
            k <= acc.len(),
            views(r@) =~= vec_views(acc@).take(k as int),
        decreases acc.len() - k,
    {
        let s = string_of(&acc[k]);
        let ghost before = r@;
        r.push(s);
        assert(views(r@) =~= views(before).push(s@));
        assert(vec_views(acc@).take(k + 1) =~= vec_views(acc@).take(k as int).push(
            acc@[k as int]@,
        ));
        k = k + 1;
    }
    assert(vec_views(acc@).take(k as int) =~= vec_views(acc@));
    r
}


/// What the helper is asked to do.
pub enum HelperAction {
    /// Write a block for the domains of this JSON array.
    Apply(String),
    /// Remove the block.
    Clear,
}

/// The outcome of the decision part of a cycle.
pub struct CyclePlan {
    /// The domains to block now, sorted and without duplicates.
    pub domains: Vec<String>,
    /// Their JSON form, as it is stored and handed to the helper.
    pub json: String,
    /// The JSON form differs from the last applied state.
    pub changed: bool,
}

/// The last applied state, where there is none the empty JSON array.
pub open spec fn last_or_empty(last: Option<String>) -> Seq<char> {
    match last {
        Some(s) => s@,
        None => "[]"@,
    }
}

/// A plan for a domain list and its JSON form, compared with the last
/// applied state.
pub fn plan_from(domains: Vec<String>, json: String, last_json: &Option<String>) -> (p: CyclePlan)
    ensures
        p.domains@ == domains@,
        p.json@ == json@,
        p.changed == (json@ != last_or_empty(*last_json)),
{
    let changed = match last_json {
        Some(last) => !(json == *last),
        None => !(json == "[]".to_string()),
    };
    CyclePlan { domains, json, changed }
}

/// Plans a cycle: the domains to block now, their JSON form, and whether it
/// differs from the last applied state.
pub fn plan_cycle(
    groups: &Vec<GroupState>,
    today: Weekday,
    now_minutes: u32,
    last_json: &Option<String>,
) -> (p: CyclePlan)
    ensures
        strictly_sorted(views(p.domains@)),
        views(p.domains@).to_set() == desired_names(groups@, today, now_minutes as int),
        p.json@ == json_of(views(p.domains@)),
        p.changed == (p.json@ != last_or_empty(*last_json)),
        p.domains@.len() == 0 && last_json is None ==> !p.changed,
{
    let domains = desired_domains(groups, today, now_minutes);
    proof {
        lemma_json_of_empty();
        assert(domains@.len() == 0 ==> views(domains@) =~= Seq::<Seq<char>>::empty());
    }
    let json = match encode_list(&domains) {
        Ok(json) => json,
        Err(_) => {
            // `encode_list` never fails on a list of strings.
            assert(false);
            String::new()
        },
    };
    plan_from(domains, json, last_json)
}

/// The helper call that brings the hosts file to the plan: clear for an
/// empty list, otherwise apply its JSON form.
pub fn helper_action(p: &CyclePlan) -> (r: HelperAction)
    ensures
        p.domains@.len() == 0 ==> r is Clear,
        p.domains@.len() > 0 ==> (r matches HelperAction::Apply(j) && j@ == p.json@),
{
    if p.domains.len() == 0 {
        HelperAction::Clear
    } else {
        HelperAction::Apply(p.json.clone())
    }
}

/// Tamper detection for a cycle whose list is unchanged: no call where the
/// hosts content agrees with the plan, otherwise the call that restores it.
pub fn tamper_repair(hosts_content: &str, p: &CyclePlan) -> (r: Option<HelperAction>)
    ensures
        r is None <==> hosts_valid(hosts_content@, views(p.domains@)),
        r matches Some(a) ==> (p.domains@.len() == 0 ==> a is Clear) && (p.domains@.len() > 0
            ==> (a matches HelperAction::Apply(j) && j@ == p.json@)),
{
    if validate_hosts_content(hosts_content, &p.domains) {
        None
    } else {
        Some(helper_action(p))
    }
}

} // verus!
