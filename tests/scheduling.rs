use site_blocker::clock::local_time_of;
use site_blocker::commands::{draft_group, group_response, join_days, schedule_response};
use site_blocker::models::{Domain, Group, Schedule};
use site_blocker::reconcile::{
    desired_domains, group_active, helper_action, plan_cycle, tamper_repair, GroupState,
    HelperAction,
};
use site_blocker::schedule::{
    canonical_day, is_active, parse_days, parse_time, yesterday, ScheduleParseError, Weekday,
};

fn strings(v: &[&str]) -> Vec<String> {
    v.iter().map(|s| s.to_string()).collect()
}

fn schedule(days: &str, start: &str, end: &str) -> Schedule {
    Schedule {
        id: Some(1),
        group_id: "g1".to_string(),
        days: days.to_string(),
        start: start.to_string(),
        end: end.to_string(),
    }
}

fn group(name: &str, enabled: bool, sched: Option<Schedule>, domains: &[&str]) -> GroupState {
    GroupState {
        group: Group { id: Some(format!("id-{name}")), name: name.to_string(), enabled },
        schedule: sched,
        domains: strings(domains),
    }
}

fn social() -> GroupState {
    group(
        "Social",
        true,
        Some(schedule("Mon,Tue,Wed,Thu,Fri", "09:00", "17:00")),
        &["facebook.com", "twitter.com"],
    )
}

#[test]
fn parse_time_accepts_hh_mm() {
    assert_eq!(parse_time("09:00"), Ok(540));
    assert_eq!(parse_time("9:00"), Ok(540));
    assert_eq!(parse_time(" 17:30 "), Ok(1050));
    assert_eq!(parse_time("23:59"), Ok(1439));
    assert_eq!(parse_time("00:00"), Ok(0));
}

#[test]
fn parse_time_rejects_malformed() {
    for t in ["24:00", "9", "ab:cd", "9:60", "1:2:3", ":30", "9:", "", "-1:00"] {
        assert_eq!(parse_time(t), Err(ScheduleParseError::InvalidTime), "{t}");
    }
}

#[test]
fn parse_days_splits_and_trims() {
    assert_eq!(parse_days("Mon, Tue ,Wed"), strings(&["Mon", "Tue", "Wed"]));
    assert_eq!(parse_days(""), strings(&[""]));
}

#[test]
fn day_names_and_yesterday() {
    assert_eq!(canonical_day(Weekday::Mon), "Mon");
    assert_eq!(canonical_day(Weekday::Sun), "Sun");
    assert_eq!(yesterday(Weekday::Mon), Weekday::Sun);
    assert_eq!(yesterday(Weekday::Sat), Weekday::Fri);
}

#[test]
fn local_time_from_parts() {
    let t = local_time_of(2, 10, 5);
    assert_eq!(t.day, Weekday::Wed);
    assert_eq!(t.minutes, 605);
}

#[test]
fn same_day_window_boundaries() {
    let days = strings(&["Wed"]);
    assert!(is_active(&days, 540, 1020, Weekday::Wed, 540));
    assert!(is_active(&days, 540, 1020, Weekday::Wed, 1019));
    assert!(!is_active(&days, 540, 1020, Weekday::Wed, 1020));
    assert!(!is_active(&days, 540, 1020, Weekday::Wed, 539));
    assert!(!is_active(&days, 540, 1020, Weekday::Thu, 600));
}

#[test]
fn cross_midnight_window_boundaries() {
    let days = strings(&["Fri"]);
    assert!(is_active(&days, 1320, 360, Weekday::Fri, 1320));
    assert!(!is_active(&days, 1320, 360, Weekday::Sat, 360));
    assert!(is_active(&days, 1320, 360, Weekday::Sat, 359));
}

#[test]
fn equal_start_and_end_is_never_active() {
    let days = strings(&["Fri", "Sat"]);
    for t in [0, 600, 1320, 1439] {
        assert!(!is_active(&days, 600, 600, Weekday::Fri, t));
        assert!(!is_active(&days, 600, 600, Weekday::Sat, t));
    }
}

#[test]
fn social_group_weekday_scenario() {
    let groups = vec![social()];
    assert_eq!(group_active(&groups[0], Weekday::Wed, 600), Ok(true));
    assert_eq!(desired_domains(&groups, Weekday::Wed, 600), strings(&["facebook.com", "twitter.com"]));
    assert_eq!(group_active(&groups[0], Weekday::Wed, 539), Ok(false));
    assert!(desired_domains(&groups, Weekday::Wed, 539).is_empty());
    assert_eq!(group_active(&groups[0], Weekday::Sat, 600), Ok(false));
    assert!(desired_domains(&groups, Weekday::Sat, 600).is_empty());
}

#[test]
fn cross_midnight_friday_scenario() {
    let g = group("Night", true, Some(schedule("Fri", "22:00", "06:00")), &["a.com"]);
    assert_eq!(group_active(&g, Weekday::Sat, 60), Ok(true));
    assert_eq!(group_active(&g, Weekday::Sat, 420), Ok(false));
    assert_eq!(group_active(&g, Weekday::Fri, 1380), Ok(true));
}

#[test]
fn disabled_or_unscheduled_groups_are_inactive() {
    let off = group("Off", false, Some(schedule("Wed", "00:00", "23:59")), &["x.com"]);
    let none = group("None", true, None, &["y.com"]);
    assert_eq!(group_active(&off, Weekday::Wed, 600), Ok(false));
    assert_eq!(group_active(&none, Weekday::Wed, 600), Ok(false));
    assert!(desired_domains(&vec![off, none], Weekday::Wed, 600).is_empty());
}

#[test]
fn malformed_schedule_skips_only_that_group() {
    let bad = group("Bad", true, Some(schedule("Wed", "nine", "17:00")), &["bad.com"]);
    assert_eq!(group_active(&bad, Weekday::Wed, 600), Err(ScheduleParseError::InvalidTime));
    let groups = vec![bad, social()];
    assert_eq!(desired_domains(&groups, Weekday::Wed, 600), strings(&["facebook.com", "twitter.com"]));
}

#[test]
fn desired_set_normalizes_dedups_and_sorts() {
    let a = group("A", true, Some(schedule("Wed", "09:00", "17:00")), &["Zeta.com", " alpha.com", "b.com"]);
    let b = group("B", true, Some(schedule("Wed", "08:00", "12:00")), &["ALPHA.com", "b.com", "ab.com"]);
    let got = desired_domains(&vec![a, b], Weekday::Wed, 600);
    assert_eq!(got, strings(&["ab.com", "alpha.com", "b.com", "zeta.com"]));
}

#[test]
fn plan_detects_change_against_last_state() {
    let groups = vec![social()];
    let p = plan_cycle(&groups, Weekday::Wed, 600, &None);
    assert_eq!(p.json, "[\"facebook.com\",\"twitter.com\"]");
    assert!(p.changed);
    let same = plan_cycle(&groups, Weekday::Wed, 600, &Some(p.json.clone()));
    assert!(!same.changed);
    match helper_action(&p) {
        HelperAction::Apply(j) => assert_eq!(j, "[\"facebook.com\",\"twitter.com\"]"),
        HelperAction::Clear => panic!("expected apply"),
    }
}

#[test]
fn plan_with_nothing_active_clears() {
    let groups = vec![social()];
    let p = plan_cycle(&groups, Weekday::Sun, 600, &None);
    assert_eq!(p.json, "[]");
    assert!(!p.changed);
    let changed = plan_cycle(&groups, Weekday::Sun, 600, &Some("[\"a.com\"]".to_string()));
    assert!(changed.changed);
    assert!(matches!(helper_action(&changed), HelperAction::Clear));
}

#[test]
fn tamper_repair_reapplies_only_on_mismatch() {
    let groups = vec![social()];
    let p = plan_cycle(&groups, Weekday::Wed, 600, &None);
    let good = site_blocker::hosts::apply_domains("127.0.0.1 localhost\n", &p.domains);
    assert!(tamper_repair(&good, &p).is_none());
    match tamper_repair("127.0.0.1 localhost\n", &p) {
        Some(HelperAction::Apply(j)) => assert_eq!(j, p.json),
        _ => panic!("expected apply"),
    }
    let empty = plan_cycle(&groups, Weekday::Sun, 600, &None);
    assert!(tamper_repair("127.0.0.1 localhost\n", &empty).is_none());
    assert!(matches!(tamper_repair(&good, &empty), Some(HelperAction::Clear)));
}

#[test]
fn join_and_split_days() {
    assert_eq!(join_days(&strings(&["Mon", "Tue", "Wed"])), "Mon,Tue,Wed");
    assert_eq!(join_days(&Vec::new()), "");
    let r = schedule_response(&schedule("Mon,Tue", "09:00", "17:00"));
    assert_eq!(r.days, strings(&["Mon", "Tue"]));
    assert_eq!(r.start, "09:00");
    assert_eq!(r.end, "17:00");
}

#[test]
fn group_response_collects_domains_and_schedule() {
    let g = Group { id: Some("g1".to_string()), name: "Social".to_string(), enabled: true };
    let ds = vec![
        Domain { id: Some(1), group_id: "g1".to_string(), domain: "a.com".to_string() },
        Domain { id: Some(2), group_id: "g1".to_string(), domain: "b.com".to_string() },
    ];
    let r = group_response(&g, &ds, &Some(schedule("Sat,Sun", "10:00", "12:00")));
    assert_eq!(r.id, "g1");
    assert_eq!(r.name, "Social");
    assert!(r.enabled);
    assert_eq!(r.domains, strings(&["a.com", "b.com"]));
    assert_eq!(r.schedule.unwrap().days, strings(&["Sat", "Sun"]));
    let bare = group_response(&Group { id: None, name: "X".to_string(), enabled: false }, &Vec::new(), &None);
    assert_eq!(bare.id, "");
    assert!(bare.schedule.is_none());
}

#[test]
fn draft_group_keeps_id_and_joins_days() {
    let d = draft_group(
        "id-1".to_string(),
        "Social".to_string(),
        strings(&["a.com"]),
        &strings(&["Mon", "Fri"]),
        "09:00".to_string(),
        "17:00".to_string(),
    );
    assert_eq!(d.id, "id-1");
    assert_eq!(d.name, "Social");
    assert!(d.enabled);
    assert_eq!(d.days, "Mon,Fri");
    assert_eq!(d.domains, strings(&["a.com"]));
}

#[test]
fn plan_json_escapes_quotes_and_controls() {
    let g = group("Odd", true, Some(schedule("Wed", "09:00", "17:00")), &["a\"b\\c", "x\u{1}y"]);
    let p = plan_cycle(&vec![g], Weekday::Wed, 600, &None);
    assert_eq!(p.json, "[\"a\\\"b\\\\c\",\"x\\u0001y\"]");
}

#[test]
fn scenario_plans_apply_for_cross_midnight_window() {
    let g = group("Night", true, Some(schedule("Fri", "22:00", "06:00")), &["example.com"]);
    let groups = vec![g];
    for (day, minute) in [(Weekday::Sat, 60), (Weekday::Fri, 1380)] {
        let p = plan_cycle(&groups, day, minute, &Some("[]".to_string()));
        assert!(p.changed);
        match helper_action(&p) {
            HelperAction::Apply(j) => assert_eq!(j, "[\"example.com\"]"),
            HelperAction::Clear => panic!("expected apply"),
        }
    }
}
