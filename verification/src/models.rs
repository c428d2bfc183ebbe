//! The records that the planner keeps: categories, weekly slots and one-day overrides.
use crate::date::Date;
use vstd::prelude::*;

verus! {

/// A study category.
#[derive(Clone, Debug, PartialEq, Eq)]
pub struct Category {
    pub id: u32,
    pub name: String,
    pub default_minutes: u32,
    pub color: String,
    pub is_archived: bool,
}

/// A weekly slot: a category at a time of day on the days of a weekday mask
/// (Monday = 1, Tuesday = 2, ..., Sunday = 64).
#[derive(Clone, Debug, PartialEq, Eq)]
pub struct ScheduleSlot {
    pub id: u32,
    pub category_id: u32,
    pub time_of_day: String,
    pub days_of_week: u8,
}

/// A weekly slot together with the name of its category.
#[derive(Clone, Debug, PartialEq, Eq)]
pub struct ScheduleSlotDetail {
    pub id: u32,
    pub category_id: u32,
    pub category_name: String,
    pub time_of_day: String,
    pub days_of_week: u8,
}

/// A one-day override of the time `time_of_day` on `override_date`: another
/// category, or a rest block where `category_id` is `None`.
#[derive(Clone, Debug, PartialEq, Eq)]
pub struct ScheduleOverride {
    pub id: u32,
    pub category_id: Option<u32>,
    pub override_date: Date,
    pub time_of_day: String,
}

} // verus!
