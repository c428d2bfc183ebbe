use arcane::timer::table_cell;
use arcane::timer::time_of_day_text;
use arcane::models::Category;
use arcane::timer::category_index;
use arcane::config::{default_notifications, render_general_config};
use arcane::text::{decimal_text, split_text, text_precedes, trim};
use arcane::timer::{
    block_start_seconds, parse_rating, plan_block, progress_bar, progress_view, session_minutes,
    session_notes, timer_key, wait_countdown, wait_key, BlockPlan, RatingInput, TimerKey,
    TimerState, TimerStep, WaitKey,
};

#[test]
fn progress_line_values() {
    let v = progress_view(30, 120);
    assert_eq!((v.percent, v.filled, v.remaining_minutes, v.remaining_seconds), (25, 5, 1, 30));
    let done = progress_view(200, 120);
    assert_eq!((done.percent, done.filled, done.remaining_minutes, done.remaining_seconds), (100, 20, 0, 0));
    let empty = progress_view(0, 0);
    assert_eq!((empty.percent, empty.filled), (100, 20));
    let start = progress_view(0, 3600);
    assert_eq!((start.percent, start.filled, start.remaining_minutes), (0, 0, 60));
    let third = progress_view(1, 3);
    assert_eq!((third.percent, third.filled), (33, 6));
}

#[test]
fn progress_bar_cells() {
    assert_eq!(progress_bar(5), "█████░░░░░░░░░░░░░░░");
    assert_eq!(progress_bar(0), "░░░░░░░░░░░░░░░░░░░░");
    assert_eq!(progress_bar(20).chars().count(), 20);
}

#[test]
fn timer_keys() {
    assert_eq!(timer_key(' '), TimerKey::TogglePause);
    assert_eq!(timer_key('s'), TimerKey::Skip);
    assert_eq!(timer_key('S'), TimerKey::Skip);
    assert_eq!(timer_key('q'), TimerKey::Quit);
    assert_eq!(timer_key('Q'), TimerKey::Quit);
    assert_eq!(timer_key('x'), TimerKey::Other);
    assert_eq!(wait_key('s'), WaitKey::StartNow);
    assert_eq!(wait_key('Q'), WaitKey::Abort);
    assert_eq!(wait_key(' '), WaitKey::Ignore);
}

#[test]
fn timer_runs_pauses_skips() {
    let total = 1;
    let mut state = TimerState::new();
    let mut redraws = 0;
    let mut steps = 0;
    while state.is_running(total) {
        match state.step(total, TimerKey::Other) {
            TimerStep::Continue { state: s, redraw } => {
                state = s;
                if redraw {
                    redraws += 1;
                }
            }
            _ => panic!("unexpected end"),
        }
        steps += 1;
    }
    assert_eq!(steps, 10);
    assert_eq!(redraws, 1);
    assert_eq!(state.elapsed_ms(), 1000);

    let s = TimerState::new();
    let paused = match s.step(10, TimerKey::TogglePause) {
        TimerStep::Continue { state, redraw } => {
            assert!(redraw);
            state
        }
        _ => panic!(),
    };
    assert!(paused.paused());
    assert_eq!(paused.elapsed_ms(), 0);
    let still = match paused.step(10, TimerKey::Other) {
        TimerStep::Continue { state, .. } => state,
        _ => panic!(),
    };
    assert_eq!(still.elapsed_ms(), 0);
    let resumed = match still.step(10, TimerKey::TogglePause) {
        TimerStep::Continue { state, redraw } => {
            assert!(!redraw);
            state
        }
        _ => panic!(),
    };
    assert_eq!(resumed.elapsed_ms(), 100);
    assert_eq!(resumed.step(10, TimerKey::Skip), TimerStep::Skipped { elapsed_secs: 0 });
    assert_eq!(resumed.step(10, TimerKey::Quit), TimerStep::Aborted);
    assert!(!TimerState::new().is_running(0));
}

#[test]
fn blocks_are_planned_against_the_clock() {
    // 09:00 block of 45 minutes.
    let start = 9 * 3600;
    assert_eq!(plan_block(start, 45, 8 * 3600, 0), BlockPlan::Wait { total_secs: 2700 });
    assert_eq!(plan_block(start, 45, 9 * 3600 + 600, 0), BlockPlan::CatchUp { remaining_secs: 2100 });
    assert_eq!(plan_block(start, 45, 9 * 3600 + 600, 5), BlockPlan::CatchUp { remaining_secs: 2099 });
    assert_eq!(plan_block(start, 45, 9 * 3600 + 2700, 0), BlockPlan::Skip { end_secs: 9 * 3600 + 2700 });
    // 23:30 block of 60 minutes ends at 00:30 the next day.
    assert_eq!(plan_block(23 * 3600 + 1800, 60, 3600, 0), BlockPlan::Skip { end_secs: 1800 });
    assert_eq!(plan_block(23 * 3600 + 1800, 60, 600, 0), BlockPlan::Wait { total_secs: 3600 });
    assert_eq!(block_start_seconds("09:00"), Some(9 * 3600));
    assert_eq!(block_start_seconds("14:30"), Some(52200));
    assert_eq!(block_start_seconds("25:00"), None);
    assert_eq!(block_start_seconds("soon"), None);
}

#[test]
fn waiting_countdown() {
    assert_eq!(wait_countdown(3600, 0, 0), Some((60, 0)));
    assert_eq!(wait_countdown(3600, 0, 1), Some((59, 59)));
    assert_eq!(wait_countdown(3600, 3600, 0), None);
    assert_eq!(wait_countdown(3600, 3700, 0), None);
}

#[test]
fn session_answers() {
    assert_eq!(parse_rating(""), RatingInput::Skip);
    assert_eq!(parse_rating("  \n"), RatingInput::Skip);
    assert_eq!(parse_rating("4\n"), RatingInput::Rating(4));
    assert_eq!(parse_rating("0"), RatingInput::Rating(0));
    assert_eq!(parse_rating("6"), RatingInput::Invalid);
    assert_eq!(parse_rating("four"), RatingInput::Invalid);
    assert_eq!(session_notes("  good focus \n"), Some("good focus".to_string()));
    assert_eq!(session_notes(" \n"), None);
    assert_eq!(session_minutes(2699), 44);
    assert_eq!(session_minutes(2700), 45);
}

#[test]
fn text_rules() {
    assert_eq!(trim("\u{2003} a b \u{85}\n"), "a b");
    assert_eq!(trim("   "), "");
    assert_eq!(split_text("a,,b,", ','), vec!["a", "", "b", ""]);
    assert_eq!(split_text("", ','), vec![""]);
    assert!(text_precedes("09:00", "10:00"));
    assert!(text_precedes("abc", "abd"));
    assert!(text_precedes("ab", "abc"));
    assert!(!text_precedes("b", "abc"));
    assert!(!text_precedes("x", "x"));
    assert_eq!(decimal_text(0), "0");
    assert_eq!(decimal_text(1234567890123), "1234567890123");
}

#[test]
fn general_config_text() {
    assert!(default_notifications());
    assert_eq!(
        render_general_config("/home/me/arcane.db", true),
        "[general]\ndatabase_path = \"/home/me/arcane.db\"\nnotifications_enabled = true\n"
    );
    assert_eq!(
        render_general_config("arcane.db", false),
        "[general]\ndatabase_path = \"arcane.db\"\nnotifications_enabled = false\n"
    );
}

#[test]
fn times_of_day_are_written_hh_mm() {
    assert_eq!(time_of_day_text(0), "00:00");
    assert_eq!(time_of_day_text(9 * 3600 + 5 * 60 + 59), "09:05");
    assert_eq!(time_of_day_text(86399), "23:59");
}

#[test]
fn categories_are_found_by_id() {
    let cats: Vec<Category> = [3u32, 5, 3]
        .iter()
        .map(|&id| Category { id, name: format!("c{}", id), default_minutes: 25, color: "red".to_string(), is_archived: false })
        .collect();
    assert_eq!(category_index(&cats, 3), Some(0));
    assert_eq!(category_index(&cats, 5), Some(1));
    assert_eq!(category_index(&cats, 7), None);
}

#[test]
fn table_cells_are_cut_by_bytes() {
    assert_eq!(table_cell("Work", 20, 17), "Work");
    assert_eq!(table_cell("A very long category name", 20, 17), "A very long categ...");
    assert_eq!(table_cell("#FFFFFF", 10, 7), "#FFFFFF");
    assert_eq!(table_cell("lightmagenta", 10, 7), "lightma...");
    assert_eq!(table_cell("ééééééééééé", 20, 16), "éééééééé...");
}
