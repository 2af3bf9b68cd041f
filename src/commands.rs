//! The computing part of the configuration commands: new group records,
//! day lists joined for storage and split for display.
use vstd::prelude::*;
use crate::models::{Domain, Group, GroupResponse, Schedule, ScheduleResponse};
use crate::schedule::views;
use crate::text::{chars_of, split_chars, split_on, string_of, vec_views};

verus! {

broadcast use vstd::string::group_string_axioms;

/// The day names joined with `sep` between them, as `join` gives them.
pub open spec fn joined(days: Seq<Seq<char>>, sep: char) -> Seq<char>
    decreases days.len(),
{
    if days.len() == 0 {
        Seq::empty()
    } else if days.len() == 1 {
        days[0]
    } else {
        joined(days.drop_last(), sep) + seq![sep] + days.last()
    }
}

/// Joins day names with commas, as schedules store them.
pub fn join_days(days: &Vec<String>) -> (r: String)
    ensures
        r@ == joined(views(days@), ','),
{
    let mut out: Vec<char> = Vec::new();
    let mut i: usize = 0;
    while i < days.len()
        invariant
            i <= days.len(),
            out@ == joined(views(days@).take(i as int), ','),
        decreases days.len() - i,
    {
        let d = chars_of(days[i].as_str());
        if i > 0 {
            out.push(',');
        }
        let mut k: usize = 0;
        let ghost base = out@;
        while k < d.len()
            invariant
                k <= d.len(),
                out@ == base + d@.take(k as int),
            decreases d.len() - k,
        {
            out.push(d[k]);
            assert(d@.take(k + 1) =~= d@.take(k as int).push(d@[k as int]));
            k = k + 1;
        }
        assert(d@.take(k as int) =~= d@);
        let ghost pre = views(days@).take(i + 1);
        assert(pre.drop_last() =~= views(days@).take(i as int));
        assert(pre.last() == d@);
        if i == 0 {
            assert(out@ =~= pre[0]);
        } else {
            assert(out@ =~= joined(pre.drop_last(), ',') + seq![','] + pre.last());
        }
        i = i + 1;
    }
    assert(views(days@).take(i as int) =~= views(days@));
    string_of(&out)
}

/// A schedule as the configuration surface shows it: its stored day list
/// split at the commas, its times as stored.
pub fn schedule_response(s: &Schedule) -> (r: ScheduleResponse)
    ensures
        views(r.days@) == split_on(s.days@, ','),
        r.start@ == s.start@,
        r.end@ == s.end@,
{
    let parts = split_chars(&chars_of(s.days.as_str()), ',');
    let mut days: Vec<String> = Vec::new();
    let mut i: usize = 0;
    while i < parts.len()
        invariant
            i <= parts.len(),
            views(days@) =~= vec_views(parts@).take(i as int),
        decreases parts.len() - i,
    {
        let d = string_of(&parts[i]);
        let ghost before = days@;
        days.push(d);
        assert(views(days@) =~= views(before).push(d@));
        assert(vec_views(parts@).take(i + 1) =~= vec_views(parts@).take(i as int).push(
            parts@[i as int]@,
        ));
        i = i + 1;
    }
    assert(vec_views(parts@).take(i as int) =~= vec_views(parts@));
    ScheduleResponse { days, start: s.start.clone(), end: s.end.clone() }
}

/// The domain names of a group's domain records.
pub open spec fn domain_names(domains: Seq<Domain>) -> Seq<Seq<char>> {
    domains.map_values(|d: Domain| d.domain@)
}

/// A group as the configuration surface shows it: its id (empty where it has
/// none), name, state, domain names and schedule.
pub fn group_response(group: &Group, domains: &Vec<Domain>, schedule: &Option<Schedule>) -> (r:
    GroupResponse)
    ensures
        r.id@ == match group.id {
            Some(i) => i@,
            None => Seq::<char>::empty(),
        },
        r.name@ == group.name@,
        r.enabled == group.enabled,
        views(r.domains@) == domain_names(domains@),
        r.schedule is Some <==> schedule is Some,
        r.schedule matches Some(sr) ==> views(sr.days@) == split_on(schedule->0.days@, ',')
            && sr.start@ == schedule->0.start@ && sr.end@ == schedule->0.end@,
{
    let mut names: Vec<String> = Vec::new();
    let mut i: usize = 0;
    while i < domains.len()
        invariant
            i <= domains.len(),
            views(names@) =~= domain_names(domains@).take(i as int),
        decreases domains.len() - i,
    {
        let d = domains[i].domain.clone();
        let ghost before = names@;
        names.push(d);
        assert(views(names@) =~= views(before).push(d@));
        assert(domain_names(domains@).take(i + 1) =~= domain_names(domains@).take(i as int).push(
            domains@[i as int].domain@,
        ));
        i = i + 1;
    }
    assert(domain_names(domains@).take(i as int) =~= domain_names(domains@));
    let id = match &group.id {
        Some(i) => i.clone(),
        None => String::new(),
    };
    let schedule = match schedule {
        Some(s) => Some(schedule_response(s)),
        None => None,
    };
    GroupResponse { id, name: group.name.clone(), enabled: group.enabled, domains: names, schedule }
}

/// The records that creating a group stores: the group, enabled, under a
/// identifier; its domains; and its schedule with the days joined.
pub struct GroupDraft {
    pub id: String,
    pub name: String,
    pub enabled: bool,
    pub domains: Vec<String>,
    pub days: String,
    pub start: String,
    pub end: String,
}

/// Prepares the records for a new group under the identifier `id`.
pub fn draft_group(
    id: String,
    name: String,
    domains: Vec<String>,
    days: &Vec<String>,
    start_time: String,
    end_time: String,
) -> (r: GroupDraft)
    ensures
        r.id@ == id@,
        r.name@ == name@,
        r.enabled,
        r.domains@ == domains@,
        r.days@ == joined(views(days@), ','),
        r.start@ == start_time@,
        r.end@ == end_time@,
{
    GroupDraft {
        id,
        name,
        enabled: true,
        domains,
        days: join_days(days),
        start: start_time,
        end: end_time,
    }
}

} // verus!
