use arcane::date::Date;
use arcane::models::{ScheduleOverride, ScheduleSlot, ScheduleSlotDetail};
use arcane::review::ReviewState;
use arcane::scheduler::{resolve_timeline, slots_on_day, TimelineBlock};

fn slot(id: u32, category_id: u32, time: &str, days: u8) -> ScheduleSlot {
    ScheduleSlot { id, category_id, time_of_day: time.to_string(), days_of_week: days }
}

fn ov(id: u32, category_id: Option<u32>, date: Date, time: &str) -> ScheduleOverride {
    ScheduleOverride { id, category_id, override_date: date, time_of_day: time.to_string() }
}

fn block(time: &str, category_id: u32) -> TimelineBlock {
    TimelineBlock { time_of_day: time.to_string(), category_id }
}

#[test]
fn test_resolve_timeline_basic() {
    let date = Date::from_ymd_opt(2026, 6, 8).unwrap(); // Monday (Bit 1)
    let slots = vec![
        ScheduleSlot { id: 1, category_id: 1, time_of_day: "08:00".to_string(), days_of_week: 31 },
        ScheduleSlot { id: 2, category_id: 2, time_of_day: "10:00".to_string(), days_of_week: 127 },
        ScheduleSlot { id: 3, category_id: 3, time_of_day: "14:00".to_string(), days_of_week: 64 },
    ];
    let overrides = vec![
        ScheduleOverride { id: 1, category_id: Some(4), override_date: date, time_of_day: "10:00".to_string() },
        ScheduleOverride { id: 2, category_id: None, override_date: date, time_of_day: "08:00".to_string() },
    ];

    let timeline = resolve_timeline(date, &slots, &overrides);

    assert_eq!(timeline.len(), 1);
    assert_eq!(timeline[0].time_of_day, "10:00");
    assert_eq!(timeline[0].category_id, 4);
}

#[test]
fn timeline_is_sorted_and_deduplicated() {
    let sunday = Date::from_ymd_opt(2026, 6, 14).unwrap();
    let slots = vec![
        slot(1, 1, "14:00", 64),
        slot(2, 2, "08:00", 127),
        slot(3, 3, "08:00", 64),
        slot(4, 4, "09:30", 31),
        slot(5, 5, "07:15", 96),
    ];
    let timeline = resolve_timeline(sunday, &slots, &[]);
    assert_eq!(timeline, vec![block("07:15", 5), block("08:00", 2), block("14:00", 1)]);
}

#[test]
fn weekday_of_each_day_selects_its_slots() {
    // 2026-06-08 is a Monday; each following day moves one bit up.
    let slots: Vec<ScheduleSlot> = (0..7).map(|i| slot(i, i + 1, &format!("0{}:00", i), 1u8 << i)).collect();
    for d in 0..7u32 {
        let date = Date::from_ymd_opt(2026, 6, 8 + d).unwrap();
        assert_eq!(date.weekday_number_from_monday(), d + 1);
        let timeline = resolve_timeline(date, &slots, &[]);
        assert_eq!(timeline, vec![block(&format!("0{}:00", d), d + 1)]);
    }
}

#[test]
fn overrides_add_replace_and_rest() {
    let monday = Date::from_ymd_opt(2026, 6, 8).unwrap();
    let slots = vec![slot(1, 1, "09:00", 1), slot(2, 2, "11:00", 1), slot(3, 3, "13:00", 2)];
    let overrides = vec![
        ov(1, Some(7), monday, "12:00"),
        ov(2, None, monday, "09:00"),
        ov(3, Some(8), monday, "11:00"),
        ov(4, Some(9), monday, "11:00"),
        ov(5, None, monday, "13:00"),
    ];
    let timeline = resolve_timeline(monday, &slots, &overrides);
    assert_eq!(timeline, vec![block("11:00", 8), block("12:00", 7)]);
}

#[test]
fn timeline_of_empty_day_is_empty() {
    let tuesday = Date::from_ymd_opt(2026, 6, 9).unwrap();
    let slots = vec![slot(1, 1, "09:00", 1)];
    assert!(resolve_timeline(tuesday, &slots, &[]).is_empty());
    assert!(resolve_timeline(tuesday, &[], &[]).is_empty());
}

#[test]
fn times_order_as_strings() {
    let monday = Date::from_ymd_opt(2026, 6, 8).unwrap();
    let slots = vec![slot(1, 1, "9:00", 1), slot(2, 2, "10:00", 1), slot(3, 3, "09:00", 1)];
    let timeline = resolve_timeline(monday, &slots, &[]);
    assert_eq!(timeline, vec![block("09:00", 3), block("10:00", 2), block("9:00", 1)]);
}

fn detail(id: u32, name: &str, time: &str, days: u8) -> ScheduleSlotDetail {
    ScheduleSlotDetail {
        id,
        category_id: id,
        category_name: name.to_string(),
        time_of_day: time.to_string(),
        days_of_week: days,
    }
}

#[test]
fn day_listing_sorts_stably_by_time() {
    let slots = vec![
        detail(1, "A", "10:00", 1),
        detail(2, "B", "08:00", 3),
        detail(3, "C", "10:00", 1),
        detail(4, "D", "09:00", 2),
        detail(5, "E", "08:00", 1),
    ];
    assert_eq!(slots_on_day(&slots, 1), vec![1, 4, 0, 2]);
    assert_eq!(slots_on_day(&slots, 2), vec![1, 3]);
    assert!(slots_on_day(&slots, 64).is_empty());
}

#[test]
fn dates_exist_or_not() {
    assert!(Date::from_ymd_opt(2024, 2, 29).is_some());
    assert!(Date::from_ymd_opt(2023, 2, 29).is_none());
    assert!(Date::from_ymd_opt(2000, 2, 29).is_some());
    assert!(Date::from_ymd_opt(1900, 2, 29).is_none());
    assert!(Date::from_ymd_opt(2023, 4, 31).is_none());
    assert!(Date::from_ymd_opt(2023, 13, 1).is_none());
    assert!(Date::from_ymd_opt(2023, 4, 0).is_none());
    assert!(Date::from_ymd_opt(262142, 12, 31).is_some());
    assert!(Date::from_ymd_opt(262143, 1, 1).is_none());
    assert!(Date::from_ymd_opt(-262143, 1, 1).is_some());
    assert!(Date::from_ymd_opt(-262144, 12, 31).is_none());
    assert!(Date::from_ymd_opt(-4, 2, 29).is_some());
    let d = Date::from_ymd_opt(2026, 6, 6).unwrap();
    assert_eq!((d.year(), d.month(), d.day()), (2026, 6, 6));
    assert_eq!(Date::from_ymd_opt(2026, 6, 14).unwrap().weekday_number_from_monday(), 7);
}

#[test]
fn dates_parse_from_iso_text() {
    let d = Date::parse_iso("2026-06-06").unwrap();
    assert_eq!((d.year(), d.month(), d.day()), (2026, 6, 6));
    assert!(Date::parse_iso("2026-02-30").is_none());
    assert!(Date::parse_iso("yesterday").is_none());
    let a = Date::from_ymd_opt(2026, 6, 5).unwrap();
    let b = Date::from_ymd_opt(2026, 6, 6).unwrap();
    assert!(a.is_on_or_before(&b));
    assert!(b.is_on_or_before(&b));
    assert!(!b.is_on_or_before(&a));
}

fn mock_review() -> ReviewState {
    ReviewState::new(1, 1, "Work".to_string(), 2500, 1, "2026-06-06".to_string())
}

#[test]
fn test_review_state_creation() {
    let review = mock_review();

    assert_eq!(review.get_id(), 1);
    assert_eq!(review.get_category_id(), 1);
    assert_eq!(review.get_topic(), "Work".to_string());
    assert_eq!(review.get_ease_factor_thousandths() as f32 / 1000.0, 2.5);
    assert_eq!(review.get_interval_days(), 1);
    assert_eq!(review.get_next_review_date(), "2026-06-06".to_string());
}

#[test]
fn test_review_is_due() {
    let review = mock_review();

    let past_date = Date::from_ymd_opt(2026, 6, 5).unwrap();
    let exact_date = Date::from_ymd_opt(2026, 6, 6).unwrap();
    let future_date = Date::from_ymd_opt(2026, 6, 7).unwrap();

    assert!(!review.is_due(past_date));
    assert!(review.is_due(exact_date));
    assert!(review.is_due(future_date));
}

#[test]
fn review_with_unreadable_date_is_not_judged() {
    let review = ReviewState::new(2, 1, "T".to_string(), 2500, 1, "06/06/2026".to_string());
    let day = Date::from_ymd_opt(2026, 6, 6).unwrap();
    assert_eq!(review.try_is_due(day), None);
    assert_eq!(mock_review().try_is_due(day), Some(true));
    let later = Date::from_ymd_opt(2027, 1, 1).unwrap();
    assert_eq!(mock_review().try_is_due(later), Some(true));
}

/// The weekday of the proleptic Gregorian calendar, Monday = 1, counted from
/// the day number with March as the first month.
fn calendar_weekday(y: i64, m: i64, d: i64) -> i64 {
    let a = if m <= 2 { y - 1 } else { y };
    let mm = if m <= 2 { m + 12 } else { m };
    let n = 365 * a + a.div_euclid(4) - a.div_euclid(100) + a.div_euclid(400) + (153 * (mm - 3) + 2) / 5 + d;
    (n + 1).rem_euclid(7) + 1
}

#[test]
fn weekdays_follow_the_calendar() {
    assert_eq!(calendar_weekday(2026, 6, 8), 1);
    for (y, m, d) in [(2026, 6, 8), (1970, 1, 1), (2000, 1, 1), (2000, 2, 29), (1, 1, 1), (-4, 2, 29), (262142, 12, 31), (-262143, 1, 1)] {
        let date = Date::from_ymd_opt(y, m, d).unwrap();
        assert_eq!(date.weekday_number_from_monday() as i64, calendar_weekday(y as i64, m as i64, d as i64), "{}-{}-{}", y, m, d);
    }
    for y in [1899, 1900, 1999, 2000, 2023, 2024, 2026, 2100] {
        for m in 1..=12u32 {
            for d in 1..=28u32 {
                let date = Date::from_ymd_opt(y, m, d).unwrap();
                assert_eq!(date.weekday_number_from_monday() as i64, calendar_weekday(y as i64, m as i64, d as i64));
            }
        }
    }
}
