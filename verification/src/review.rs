//! Spaced-repetition review records and when they fall due.
use crate::date::{chrono_parse_ymd, date_on_or_before, Date};
use vstd::prelude::*;

verus! {

/// The review state of a topic. The ease factor is held in thousandths.
#[derive(Clone, Debug, PartialEq, Eq)]
pub struct ReviewState {
    id: u32,
    category_id: u32,
    topic: String,
    ease_factor_thousandths: u32,
    interval_days: u32,
    next_review_date: String,
}

/// A review whose next date reads as `next` is due on `current`.
pub open spec fn due_on(next: (i32, u32, u32), current: (i32, u32, u32)) -> bool {
    date_on_or_before(next, current)
}

impl ReviewState {
    pub fn new(
        id: u32,
        category_id: u32,
        topic: String,
        ease_factor_thousandths: u32,
        interval_days: u32,
        next_review_date: String,
    ) -> (r: ReviewState)
        ensures
            r.id() == id,
            r.category_id() == category_id,
            r.topic() == topic,
            r.ease_factor_thousandths() == ease_factor_thousandths,
            r.interval_days() == interval_days,
            r.next_review_date() == next_review_date,
    {
        ReviewState {
            id,
            category_id,
            topic,
            ease_factor_thousandths,
            interval_days,
            next_review_date,
        }
    }

    pub closed spec fn id(&self) -> u32 {
        self.id
    }

    pub closed spec fn category_id(&self) -> u32 {
        self.category_id
    }

    pub closed spec fn topic(&self) -> String {
        self.topic
    }

    pub closed spec fn ease_factor_thousandths(&self) -> u32 {
        self.ease_factor_thousandths
    }

    pub closed spec fn interval_days(&self) -> u32 {
        self.interval_days
    }

    pub closed spec fn next_review_date(&self) -> String {
        self.next_review_date
    }

    pub fn get_id(&self) -> (r: u32)
        ensures
            r == self.id(),
    {
        self.id
    }

    pub fn get_category_id(&self) -> (r: u32)
        ensures
            r == self.category_id(),
    {
        self.category_id
    }

    pub fn get_topic(&self) -> (r: &str)
        ensures
            r@ == self.topic()@,
    {
        self.topic.as_str()
    }

    pub fn get_ease_factor_thousandths(&self) -> (r: u32)
        ensures
            r == self.ease_factor_thousandths(),
    {
        self.ease_factor_thousandths
    }

    pub fn get_interval_days(&self) -> (r: u32)
        ensures
            r == self.interval_days(),
    {
        self.interval_days
    }

    pub fn get_next_review_date(&self) -> (r: &str)
        ensures
            r@ == self.next_review_date()@,
    {
        self.next_review_date.as_str()
    }

    /// The review is due on `current_date`: its next date (`YYYY-MM-DD`) is
    /// on or before it. The stored date must be readable.
    pub fn is_due(&self, current_date: Date) -> (r: bool)
        requires
            chrono_parse_ymd(self.next_review_date()@) is Some,
        ensures
            r == due_on(chrono_parse_ymd(self.next_review_date()@)->Some_0, current_date@),
    {
        match Date::parse_iso(self.next_review_date.as_str()) {
            Some(d) => d.is_on_or_before(&current_date),
            None => false,
        }
    }

    /// `is_due` where the stored date is readable, `None` where it is not.
    pub fn try_is_due(&self, current_date: Date) -> (r: Option<bool>)
        ensures
            match chrono_parse_ymd(self.next_review_date()@) {
                Some(next) => r == Some(due_on(next, current_date@)),
                None => r is None,
            },
    {
        match Date::parse_iso(self.next_review_date.as_str()) {
            Some(_) => Some(self.is_due(current_date)),
            None => None,
        }
    }
}

/// A review due on a day stays due on every later day.
pub proof fn lemma_due_stays_due(
    next: (i32, u32, u32),
    day: (i32, u32, u32),
    later: (i32, u32, u32),
)
    requires
        due_on(next, day),
        date_on_or_before(day, later),
    ensures
        due_on(next, later),
{
}

} // verus!
