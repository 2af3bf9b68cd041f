//! The records that the persistence layer keeps: groups, their domains and
//! their schedules, and the shapes the configuration surface exchanges.
use vstd::prelude::*;

verus! {

/// A named set of domains that can be blocked together.
pub struct Group {
    pub id: Option<String>,
    pub name: String,
    pub enabled: bool,
}

/// A group as it is inserted.
pub struct NewGroup<'a> {
    pub id: &'a str,
    pub name: &'a str,
    pub enabled: bool,
}

/// One domain of a group.
pub struct Domain {
    pub id: Option<i32>,
    pub group_id: String,
    pub domain: String,
}

/// A domain as it is inserted.
pub struct NewDomain<'a> {
    pub group_id: &'a str,
    pub domain: &'a str,
}

/// The blocking window of a group: comma-separated day names and the start
/// and end times, `HH:MM`.
pub struct Schedule {
    pub id: Option<i32>,
    pub group_id: String,
    pub days: String,
    pub start: String,
    pub end: String,
}

/// A schedule as it is inserted.
pub struct NewSchedule<'a> {
    pub group_id: &'a str,
    pub days: &'a str,
    pub start: &'a str,
    pub end: &'a str,
}

/// A group as the configuration surface shows it.
pub struct GroupResponse {
    pub id: String,
    pub name: String,
    pub enabled: bool,
    pub domains: Vec<String>,
    pub schedule: Option<ScheduleResponse>,
}

/// A schedule as the configuration surface shows it, its days split apart.
pub struct ScheduleResponse {
    pub days: Vec<String>,
    pub start: String,
    pub end: String,
}

} // verus!
