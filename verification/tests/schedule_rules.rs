use arcane::config::ImportManifest;
use arcane::schedule::{import_steps, ImportStep};
use arcane::schedule::override_category;
use arcane::category::{removal_result, RemovalResult};
use arcane::category::{check_new_category, plan_import_category, validate_color, CategoryWrite};
use arcane::config::{CategoryConfig, ScheduleConfig};
use arcane::error::ArcaneError;
use arcane::models::Category;
use arcane::schedule::{
    check_schedule_override, check_schedule_slot, check_slot_removed, parse_time_of_day,
    parse_weekdays, plan_import_slot,
};

fn message(e: ArcaneError) -> String {
    match e {
        ArcaneError::CategoryValidation(m) => m,
        ArcaneError::ConfigValidation(m) => panic!("unexpected config error {}", m),
    }
}

#[test]
fn test_parse_weekdays() {
    assert_eq!(parse_weekdays("mon").unwrap(), 1);
    assert_eq!(parse_weekdays("Mon, Tue").unwrap(), 3);
    assert_eq!(parse_weekdays("weekdays").unwrap(), 31);
    assert_eq!(parse_weekdays("weekend").unwrap(), 96);
    assert_eq!(parse_weekdays("everyday").unwrap(), 127);
    assert!(parse_weekdays("invalid").is_err());
}

#[test]
fn weekday_keywords_and_full_names() {
    assert_eq!(parse_weekdays("  DAILY ").unwrap(), 127);
    assert_eq!(parse_weekdays("all").unwrap(), 127);
    assert_eq!(parse_weekdays("any").unwrap(), 127);
    assert_eq!(parse_weekdays("workdays").unwrap(), 31);
    assert_eq!(parse_weekdays("weekday").unwrap(), 31);
    assert_eq!(parse_weekdays("weekends").unwrap(), 96);
    assert_eq!(parse_weekdays("monday,tuesday,wednesday,thursday,friday,saturday,sunday").unwrap(), 127);
    assert_eq!(parse_weekdays("sat,sun").unwrap(), 96);
    assert_eq!(parse_weekdays("mon,,mon, ").unwrap(), 1);
    assert_eq!(parse_weekdays("\u{3000}fri\t").unwrap(), 16);
}

#[test]
fn weekday_errors_carry_their_messages() {
    assert_eq!(message(parse_weekdays("   ").unwrap_err()), "Weekdays input cannot be empty");
    assert_eq!(message(parse_weekdays(",, ,").unwrap_err()), "No valid weekdays parsed from input");
    assert_eq!(
        message(parse_weekdays("mon, funday, blursday").unwrap_err()),
        "Invalid weekday token 'funday'. Valid options: mon, tue, wed, thu, fri, sat, sun, weekdays, weekend, everyday"
    );
}

#[test]
fn times_of_day_are_checked() {
    assert_eq!(parse_time_of_day("09:00").unwrap(), (9, 0));
    assert_eq!(parse_time_of_day("23:59").unwrap(), (23, 59));
    assert_eq!(parse_time_of_day("+7:05").unwrap(), (7, 5));
    assert_eq!(message(parse_time_of_day("0900").unwrap_err()), "Invalid time format '0900'. Use HH:MM.");
    assert_eq!(message(parse_time_of_day("1:2:3").unwrap_err()), "Invalid time format '1:2:3'. Use HH:MM.");
    assert_eq!(message(parse_time_of_day("ab:00").unwrap_err()), "Invalid hour in time 'ab:00'");
    assert_eq!(message(parse_time_of_day("10:").unwrap_err()), "Invalid minute in time '10:'");
    assert_eq!(message(parse_time_of_day("24:00").unwrap_err()), "Time parameters out of bounds in '24:00'");
    assert_eq!(message(parse_time_of_day("12:60").unwrap_err()), "Time parameters out of bounds in '12:60'");
    assert_eq!(message(parse_time_of_day(" 9:00").unwrap_err()), "Invalid hour in time ' 9:00'");
}

#[test]
fn new_slots_follow_the_checks_in_order() {
    let slot = check_schedule_slot("Work", Some(1), "09:00", "mon,tue").unwrap();
    assert_eq!(slot.category_id, 1);
    assert_eq!(slot.time_of_day, "09:00");
    assert_eq!(slot.days_of_week, 3);
    assert_eq!(
        message(check_schedule_slot("Nope", None, "bad", "bad").unwrap_err()),
        "Category 'Nope' does not exist or is archived"
    );
    assert_eq!(
        message(check_schedule_slot("Work", Some(1), "bad", "bad").unwrap_err()),
        "Invalid time format 'bad'. Use HH:MM."
    );
    assert!(check_schedule_slot("Work", Some(1), "10:00", "bad").is_err());
    let truncated = check_schedule_slot("Work", Some(4_294_967_298), "10:00", "sun").unwrap();
    assert_eq!(truncated.category_id, 2);
}

#[test]
fn overrides_need_a_live_category() {
    assert!(check_schedule_override(Some(1), Some(false), "14:00").is_ok());
    assert!(check_schedule_override(None, None, "14:00").is_ok());
    assert_eq!(
        message(check_schedule_override(Some(3), Some(true), "14:00").unwrap_err()),
        "Cannot schedule override for an archived category"
    );
    assert_eq!(
        message(check_schedule_override(Some(42), None, "14:00").unwrap_err()),
        "Category ID 42 does not exist"
    );
    assert_eq!(
        message(check_schedule_override(None, None, "1400").unwrap_err()),
        "Invalid time format '1400'. Use HH:MM."
    );
    assert!(check_schedule_override(None, None, "xx:yy").is_ok());
}

#[test]
fn removing_a_missing_slot_fails() {
    assert!(check_slot_removed(7, 1).is_ok());
    assert_eq!(message(check_slot_removed(7, 0).unwrap_err()), "Schedule slot ID 7 does not exist");
    assert_eq!(message(check_slot_removed(4_000_000_000, 0).unwrap_err()), "Schedule slot ID 4000000000 does not exist");
}

fn category(name: &str, color: &str) -> Category {
    Category {
        id: 0,
        name: name.to_string(),
        default_minutes: 25,
        color: color.to_string(),
        is_archived: false,
    }
}

#[test]
fn category_validation_rules() {
    assert_eq!(
        message(check_new_category(&category("   ", "red"), false).unwrap_err()),
        "Category name cannot be empty"
    );
    assert_eq!(check_new_category(&category("  Work ", "red"), false).unwrap(), "Work");
    assert_eq!(
        message(check_new_category(&category("Work", "blue"), true).unwrap_err()),
        "Category name 'Work' already exists"
    );
    assert!(check_new_category(&category("Hex1", "#FFAA00"), false).is_ok());
    assert!(check_new_category(&category("Hex2", "abc"), false).is_ok());
    assert!(check_new_category(&category("Ansi", "128"), false).is_ok());
    assert!(check_new_category(&category("InvalidColor", "not-a-color"), false).is_err());
}

#[test]
fn colors_accepted_and_refused() {
    for ok in ["red", " LightCyan ", "#FF0000", "#abc", "abc", "ABCDEF", "0", "255", "+7", "007", "Blac\u{212A}", "256"] {
        assert!(validate_color(ok).is_ok(), "{}", ok);
    }
    for bad in ["1024", "#ab", "#abcd", "#ggg", "purple", "-1", "##abc", "ab c"] {
        assert!(validate_color(bad).is_err(), "{}", bad);
    }
    assert_eq!(message(validate_color("  ").unwrap_err()), "Color cannot be empty");
    assert_eq!(
        message(validate_color("not-a-color").unwrap_err()),
        "Color must be a valid HEX code (with or without '#'), an ANSI integer (0-255), or one of the named colors: [\"black\", \"red\", \"green\", \"yellow\", \"blue\", \"magenta\", \"cyan\", \"gray\", \"darkgray\", \"lightred\", \"lightgreen\", \"lightyellow\", \"lightblue\", \"lightmagenta\", \"lightcyan\", \"white\"]"
    );
}

#[test]
fn import_decisions() {
    let cat = CategoryConfig { name: " Rust ".to_string(), default_minutes: 60, color: "magenta".to_string() };
    assert_eq!(plan_import_category(&cat, None).unwrap(), CategoryWrite::Insert);
    assert_eq!(plan_import_category(&cat, Some((4, false))).unwrap(), CategoryWrite::Update { id: 4 });
    assert_eq!(plan_import_category(&cat, Some((4, true))).unwrap(), CategoryWrite::Restore { id: 4 });
    let blank = CategoryConfig { name: " ".to_string(), default_minutes: 60, color: "red".to_string() };
    assert_eq!(message(plan_import_category(&blank, None).unwrap_err()), "Category name cannot be empty");
    let bad_color = CategoryConfig { name: "X".to_string(), default_minutes: 60, color: "nope".to_string() };
    assert!(plan_import_category(&bad_color, Some((1, false))).is_err());

    let sched = ScheduleConfig { time: "11:00".to_string(), category: "Rust".to_string(), days: 127 };
    let slot = plan_import_slot(&sched, Some(2)).unwrap();
    assert_eq!((slot.category_id, slot.time_of_day.as_str(), slot.days_of_week), (2, "11:00", 127));
    assert_eq!(
        message(plan_import_slot(&sched, None).unwrap_err()),
        "Category 'Rust' does not exist in manifest or active database"
    );
    let too_many = ScheduleConfig { time: "11:00".to_string(), category: "Rust".to_string(), days: 128 };
    assert_eq!(message(plan_import_slot(&too_many, Some(2)).unwrap_err()), "Days bitmask 128 exceeds 127");
    let bad_time = ScheduleConfig { time: "25:00".to_string(), category: "Rust".to_string(), days: 1 };
    assert_eq!(
        message(plan_import_slot(&bad_time, Some(2)).unwrap_err()),
        "Time parameters out of bounds in '25:00'"
    );
}

#[test]
fn error_text_has_its_prefix() {
    let e = ArcaneError::CategoryValidation("x".to_string());
    assert_eq!(e.to_text(), "Category validation failed: x");
    let c = ArcaneError::ConfigValidation("y".to_string());
    assert_eq!(c.to_text(), "Configuration validation failed: y");
}

#[test]
fn removal_archives_categories_with_history() {
    assert_eq!(removal_result(true), RemovalResult::Archived);
    assert_eq!(removal_result(false), RemovalResult::Deleted);
}

#[test]
fn weekday_lists_join_as_unions() {
    assert_eq!(parse_weekdays("mon,mon").unwrap(), 1);
    assert_eq!(parse_weekdays("mon,tue,mon").unwrap(), 3);
    let a = "mon, wed";
    let b = " FRI,sun ";
    let x = parse_weekdays(a).unwrap();
    let y = parse_weekdays(b).unwrap();
    assert_eq!(parse_weekdays(&format!("{},{}", a, b)).unwrap(), x | y);
    assert_eq!(x | y, 1 | 4 | 16 | 64);
    // A keyword is no day token: joined with a list it is refused.
    assert!(parse_weekdays("weekdays,mon").is_err());
}

#[test]
fn weekday_case_and_blanks_are_ignored() {
    for s in [
        "mon", "Mon, Tue", "weekend", "everyday", "invalid", "", "sat,,sun", "mon,funday",
        "mön", "mon,tué", "ΣΑΒ,mon", "mon,ΟΔΟΣ", "Mon\u{00A0}", "\u{3000}weekDAYS",
    ] {
        let plain = parse_weekdays(s);
        assert_eq!(parse_weekdays(&s.to_ascii_uppercase()), plain);
        assert_eq!(parse_weekdays(&format!(" {}\t", s)), plain);
        assert_eq!(parse_weekdays(&format!("\n{} ", s.to_ascii_uppercase())), plain);
    }
    assert_eq!(parse_weekdays("MON").unwrap(), 1);
}

#[test]
fn color_case_and_blanks_are_ignored() {
    for c in ["red", "LightBlue", "#ffaa00", "abc", "128", "nope", "", "Blac\u{212A}", "gréen"] {
        let plain = validate_color(c).is_ok();
        assert_eq!(validate_color(&c.to_ascii_uppercase()).is_ok(), plain);
        assert_eq!(validate_color(&format!("\n {} ", c)).is_ok(), plain);
    }
}

#[test]
fn override_names_rest_or_a_category() {
    assert_eq!(override_category("rest", None).unwrap(), None);
    assert_eq!(override_category(" rest ", Some(3)).unwrap(), None);
    assert_eq!(override_category("Work", Some(3)).unwrap(), Some(3));
    assert_eq!(
        message(override_category("Gone", None).unwrap_err()),
        "Category 'Gone' does not exist or is archived"
    );
}

#[test]
fn import_replaces_the_schedule_only_when_given() {
    let cat = CategoryConfig { name: "Rust".to_string(), default_minutes: 60, color: "red".to_string() };
    let slot = ScheduleConfig { time: "09:00".to_string(), category: "Rust".to_string(), days: 31 };
    let with = ImportManifest { categories: vec![cat.clone(), cat.clone()], schedule: Some(vec![slot.clone()]) };
    assert_eq!(
        import_steps(&with),
        vec![ImportStep::Category(0), ImportStep::Category(1), ImportStep::ClearSchedule, ImportStep::Slot(0)]
    );
    let without = ImportManifest { categories: vec![cat], schedule: None };
    assert_eq!(import_steps(&without), vec![ImportStep::Category(0)]);
    let empty = ImportManifest { categories: vec![], schedule: Some(vec![]) };
    assert_eq!(import_steps(&empty), vec![ImportStep::ClearSchedule]);
}
