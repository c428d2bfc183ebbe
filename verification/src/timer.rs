//! The decisions of the session timer: which blocks of the day to run, how a
//! running block counts down, and what the screen shows of it.
use crate::date::{chrono_parse_hm, parse_hm};
use vstd::string::StringSliceAdditionalSpecFns;
use vstd::utf8::{encode_utf8, is_char_boundary};
use crate::models::Category;
use crate::text::{
    all_white_space, decimal_spec, digit_char, digit_str, lemma_decimal_reads_back,
    lemma_trim_ignores_surrounding, parse_unsigned, parse_unsigned_spec, trim, trim_spec,
};
use vstd::prelude::*;

verus! {

/// Seconds in a day.
pub open spec fn day_seconds() -> int {
    86400
}

/// Integer division that rounds toward zero, as `/` on `i64` does.
pub open spec fn div_toward_zero(a: int, b: int) -> int {
    if a >= 0 {
        a / b
    } else {
        -((-a) / b)
    }
}

/// Remainder of `div_toward_zero`, as `%` on `i64` gives it.
pub open spec fn rem_toward_zero(a: int, b: int) -> int {
    a - b * div_toward_zero(a, b)
}

pub open spec fn clamp(x: int, lo: int, hi: int) -> int {
    if x < lo {
        lo
    } else if x > hi {
        hi
    } else {
        x
    }
}

/// What the progress line shows of a block.
#[derive(Clone, Copy, Debug, PartialEq, Eq)]
pub struct ProgressView {
    /// Percent done, 0 to 100.
    pub percent: i64,
    /// Cells of the 20-cell bar that are filled.
    pub filled: i64,
    pub remaining_minutes: i64,
    pub remaining_seconds: i64,
}

pub open spec fn percent_spec(elapsed: int, total: int) -> int {
    if total > 0 {
        clamp(div_toward_zero(elapsed * 100, total), 0, 100)
    } else {
        100
    }
}

pub open spec fn remaining_spec(elapsed: int, total: int) -> int {
    if total - elapsed > 0 {
        total - elapsed
    } else {
        0
    }
}

/// The progress of a block after `elapsed` of `total` seconds: the percent
/// done (100 for a block of no length), the filled cells of a 20-cell bar,
/// and the minutes and seconds left.
pub fn progress_view(elapsed: i64, total: i64) -> (r: ProgressView)
    requires
        -(i64::MAX / 100) <= elapsed <= i64::MAX / 100,
        i64::MIN <= total - elapsed <= i64::MAX,
    ensures
        r.percent == percent_spec(elapsed as int, total as int),
        r.filled == r.percent * 20 / 100,
        r.remaining_minutes == remaining_spec(elapsed as int, total as int) / 60,
        r.remaining_seconds == remaining_spec(elapsed as int, total as int) % 60,
        0 <= r.percent <= 100,
        0 <= r.filled <= 20,
{
    let percent: i64 = if total > 0 {
        if elapsed <= 0 {
            proof {
                if elapsed < 0 {
                    assert(((-(elapsed * 100)) / (total as int)) >= 0) by (nonlinear_arith)
                        requires
                            elapsed < 0,
                            total > 0,
                    ;
                }
            }
            0
        } else {
            let p = elapsed * 100 / total;
            if p > 100 {
                100
            } else {
                p
            }
        }
    } else {
        100
    };
    assert(0 <= percent * 20 / 100 <= 20) by (nonlinear_arith)
        requires
            0 <= percent <= 100,
    ;
    let filled = percent * 20 / 100;
    let diff = total - elapsed;
    let remaining: i64 = if diff > 0 {
        diff
    } else {
        0
    };
    ProgressView {
        percent,
        filled,
        remaining_minutes: remaining / 60,
        remaining_seconds: remaining % 60,
    }
}

/// The 20 cells of a progress bar with `filled` of them filled.
pub open spec fn bar_spec(filled: int) -> Seq<char> {
    Seq::new(20, |i: int| if i < filled { '█' } else { '░' })
}

/// Draws a 20-cell progress bar.
pub fn progress_bar(filled: i64) -> (r: String)
    ensures
        r@ == bar_spec(filled as int),
{
    proof {
        reveal_strlit("█");
        reveal_strlit("░");
        assert("█"@ =~= seq!['█']);
        assert("░"@ =~= seq!['░']);
    }
    let mut bar = String::new();
    let mut i: i64 = 0;
    while i < 20
        invariant
            0 <= i <= 20,
            "█"@ == seq!['█'],
            "░"@ == seq!['░'],
            bar@ == bar_spec(filled as int).subrange(0, i as int),
        decreases 20 - i,
    {
        if i < filled {
            bar.append("█");
        } else {
            bar.append("░");
        }
        assert(bar@ =~= bar_spec(filled as int).subrange(0, i + 1));
        i = i + 1;
    }
    assert(bar_spec(filled as int).subrange(0, 20) =~= bar_spec(filled as int));
    bar
}

/// A key pressed while a block runs.
#[derive(Clone, Copy, Debug, PartialEq, Eq, Structural)]
pub enum TimerKey {
    TogglePause,
    Skip,
    Quit,
    Other,
}

/// Space pauses or resumes, `s` skips, `q` quits; other keys do nothing.
pub fn timer_key(c: char) -> (r: TimerKey)
    ensures
        r == (if c == ' ' {
            TimerKey::TogglePause
        } else if c == 's' || c == 'S' {
            TimerKey::Skip
        } else if c == 'q' || c == 'Q' {
            TimerKey::Quit
        } else {
            TimerKey::Other
        }),
{
    if c == ' ' {
        TimerKey::TogglePause
    } else if c == 's' || c == 'S' {
        TimerKey::Skip
    } else if c == 'q' || c == 'Q' {
        TimerKey::Quit
    } else {
        TimerKey::Other
    }
}

/// A running block: the milliseconds counted so far, in steps of 100, and
/// whether it is paused.
#[derive(Clone, Copy, Debug, PartialEq, Eq)]
pub struct TimerState {
    elapsed_ms: i64,
    paused: bool,
}

/// The outcome of one 100 ms step of a running block.
#[derive(Clone, Copy, Debug, PartialEq, Eq)]
pub enum TimerStep {
    /// Go on from `state`; `redraw` asks for the progress line to be drawn.
    Continue { state: TimerState, redraw: bool },
    /// The block was skipped after `elapsed_secs` whole seconds.
    Skipped { elapsed_secs: i64 },
    /// The whole run was aborted.
    Aborted,
}

impl View for TimerState {
    type V = (int, bool);

    closed spec fn view(&self) -> (int, bool) {
        (self.elapsed_ms as int, self.paused)
    }
}

/// The block still runs: fewer milliseconds counted than it lasts.
pub open spec fn timer_running_spec(state: (int, bool), total_seconds: int) -> bool {
    state.0 < total_seconds * 1000
}

proof fn lemma_next_step_fits(elapsed: int, total_seconds: int)
    requires
        elapsed >= 0,
        elapsed % 100 == 0,
        elapsed < total_seconds * 1000,
    ensures
        elapsed + 100 <= total_seconds * 1000,
        (elapsed + 100) % 100 == 0,
{
    assert(elapsed + 100 <= total_seconds * 1000) by (nonlinear_arith)
        requires
            elapsed >= 0,
            elapsed % 100 == 0,
            elapsed < total_seconds * 1000,
    ;
}

impl TimerState {
    #[verifier::type_invariant]
    spec fn counts_in_steps(self) -> bool {
        self.elapsed_ms >= 0 && self.elapsed_ms % 100 == 0
    }

    /// A block that starts: nothing counted, not paused.
    pub fn new() -> (r: TimerState)
        ensures
            r@ == (0int, false),
    {
        TimerState { elapsed_ms: 0, paused: false }
    }

    pub fn elapsed_ms(&self) -> (r: i64)
        ensures
            r == self@.0,
            r >= 0,
            r % 100 == 0,
    {
        proof {
            use_type_invariant(self);
        }
        self.elapsed_ms
    }

    pub fn paused(&self) -> (r: bool)
        ensures
            r == self@.1,
    {
        self.paused
    }

    /// The whole seconds counted so far.
    pub fn elapsed_secs(&self) -> (r: i64)
        ensures
            r == self@.0 / 1000,
    {
        proof {
            use_type_invariant(self);
        }
        self.elapsed_ms / 1000
    }

    /// The block still runs.
    pub fn is_running(&self, total_seconds: i64) -> (r: bool)
        requires
            -9_223_372_036_854_775 <= total_seconds <= 9_223_372_036_854_775,
        ensures
            r == timer_running_spec(self@, total_seconds as int),
    {
        self.elapsed_ms < total_seconds * 1000
    }

    /// One step of a running block on a key (`Other` where none was pressed):
    /// skip gives the whole seconds counted, quit aborts; otherwise the pause
    /// is toggled where asked, the count grows by 100 ms unless paused, and
    /// the line is redrawn on each whole second and while paused.
    pub fn step(&self, total_seconds: i64, key: TimerKey) -> (r: TimerStep)
        requires
            -9_223_372_036_854_775 <= total_seconds <= 9_223_372_036_854_775,
            timer_running_spec(self@, total_seconds as int),
        ensures
            key == TimerKey::Skip ==> r == (TimerStep::Skipped { elapsed_secs: (self@.0 / 1000) as i64 }),
            key == TimerKey::Quit ==> r == TimerStep::Aborted,
            (key == TimerKey::TogglePause || key == TimerKey::Other) ==> (r matches TimerStep::Continue { state, redraw } && {
                let paused = if key == TimerKey::TogglePause { !self@.1 } else { self@.1 };
                let elapsed = if paused { self@.0 } else { self@.0 + 100 };
                &&& state@ == (elapsed, paused)
                &&& redraw == (elapsed % 1000 == 0 || paused)
                &&& elapsed <= total_seconds * 1000
            }),
    {
        proof {
            use_type_invariant(self);
        }
        match key {
            TimerKey::Skip => TimerStep::Skipped { elapsed_secs: self.elapsed_ms / 1000 },
            TimerKey::Quit => TimerStep::Aborted,
            _ => {
                let paused = match key {
                    TimerKey::TogglePause => !self.paused,
                    _ => self.paused,
                };
                proof {
                    lemma_next_step_fits(self.elapsed_ms as int, total_seconds as int);
                }
                let elapsed_ms = if paused {
                    self.elapsed_ms
                } else {
                    self.elapsed_ms + 100
                };
                let redraw = elapsed_ms % 1000 == 0 || paused;
                TimerStep::Continue { state: TimerState { elapsed_ms, paused }, redraw }
            },
        }
    }
}


/// What to do with a block of the day when the run reaches it.
#[derive(Clone, Copy, Debug, PartialEq, Eq)]
pub enum BlockPlan {
    /// The block ended already (at `end_secs`): skip it.
    Skip { end_secs: u32 },
    /// The block is under way: run what is left of it.
    CatchUp { remaining_secs: i64 },
    /// The block is still ahead: wait for it, then run all of it.
    Wait { total_secs: i64 },
}

/// The end of a block as a time of day: the start plus the length, wrapping
/// past midnight as `NaiveTime + Duration` does.
pub open spec fn block_end_spec(start_secs: int, default_minutes: int) -> int {
    (start_secs + default_minutes * 60) % day_seconds()
}

/// Whole seconds from a time of day (`now_secs` and `now_nanos`) to a later
/// whole second `target`, as `TimeDelta::num_seconds` counts them.
pub open spec fn seconds_until(target: int, now_secs: int, now_nanos: int) -> int {
    target - now_secs - (if now_nanos > 0 {
        1int
    } else {
        0int
    })
}

/// What `plan_block` decides for a block that starts at `start_secs` and
/// lasts `default_minutes`, at the time of day `now`.
pub open spec fn block_plan_spec(
    start_secs: int,
    default_minutes: int,
    now_secs: int,
    now_nanos: int,
) -> BlockPlan {
    let end = block_end_spec(start_secs, default_minutes);
    if now_secs >= end {
        BlockPlan::Skip { end_secs: end as u32 }
    } else if now_secs >= start_secs {
        BlockPlan::CatchUp { remaining_secs: seconds_until(end, now_secs, now_nanos) as i64 }
    } else {
        BlockPlan::Wait { total_secs: (default_minutes * 60) as i64 }
    }
}

/// Decides, at the time of day `now` (seconds since midnight and the
/// nanoseconds of the current second), what to do with a block: skip it if
/// it has ended, run the rest of it if it is under way, else wait for it.
pub fn plan_block(start_secs: u32, default_minutes: u32, now_secs: u32, now_nanos: u32) -> (r:
    BlockPlan)
    requires
        start_secs < 86400,
        now_secs < 86400,
        now_nanos < 1_000_000_000,
    ensures
        r == block_plan_spec(start_secs as int, default_minutes as int, now_secs as int, now_nanos as int),
{
    let length: u64 = (default_minutes as u64) * 60;
    let end = ((start_secs as u64 + length) % 86400) as u32;
    if now_secs >= end {
        BlockPlan::Skip { end_secs: end }
    } else if now_secs >= start_secs {
        let frac: i64 = if now_nanos > 0 {
            1
        } else {
            0
        };
        BlockPlan::CatchUp { remaining_secs: (end as i64) - (now_secs as i64) - frac }
    } else {
        BlockPlan::Wait { total_secs: length as i64 }
    }
}

/// The start of a block of the timeline, in seconds since midnight, read
/// from its `HH:MM` text; `None` where the text is no time (the run passes
/// the block over).
pub fn block_start_seconds(time_of_day: &str) -> (r: Option<u32>)
    ensures
        r == chrono_parse_hm(time_of_day@),
        r matches Some(x) ==> x < 86400,
{
    parse_hm(time_of_day)
}

/// A running block never has more left than its length.
pub proof fn lemma_catch_up_within_block(
    start_secs: int,
    default_minutes: int,
    now_secs: int,
    now_nanos: int,
)
    requires
        0 <= start_secs < 86400,
        0 <= now_secs < 86400,
        0 <= default_minutes,
        block_plan_spec(start_secs, default_minutes, now_secs, now_nanos) is CatchUp,
    ensures
        0 <= seconds_until(block_end_spec(start_secs, default_minutes), now_secs, now_nanos)
            <= default_minutes * 60,
{
    let end = block_end_spec(start_secs, default_minutes);
    assert(0 <= end < 86400);
    if start_secs + default_minutes * 60 >= 86400 {
        assert(end <= start_secs + default_minutes * 60 - 86400) by {
            vstd::arithmetic::div_mod::lemma_mod_sub_multiples_vanish(start_secs + default_minutes * 60, 86400);
        }
        if default_minutes * 60 < 86400 {
            assert(end < start_secs);
        }
    }
}

/// The countdown shown while waiting for a block that starts at
/// `start_secs`: `None` once the start is reached, else the minutes and
/// seconds left.
pub fn wait_countdown(start_secs: u32, now_secs: u32, now_nanos: u32) -> (r: Option<(i64, i64)>)
    requires
        start_secs < 86400,
        now_secs < 86400,
    ensures
        now_secs >= start_secs ==> r is None,
        now_secs < start_secs ==> r == Some::<(i64, i64)>(
            (
                (seconds_until(start_secs as int, now_secs as int, now_nanos as int) / 60) as i64,
                (seconds_until(start_secs as int, now_secs as int, now_nanos as int) % 60) as i64,
            ),
        ),
{
    if now_secs >= start_secs {
        return None;
    }
    let frac: i64 = if now_nanos > 0 {
        1
    } else {
        0
    };
    let diff: i64 = (start_secs as i64) - (now_secs as i64) - frac;
    Some((diff / 60, diff % 60))
}

/// A key pressed while waiting for a block.
#[derive(Clone, Copy, Debug, PartialEq, Eq)]
pub enum WaitKey {
    StartNow,
    Abort,
    Ignore,
}

/// `s` starts the block at once, `q` aborts the run; other keys do nothing.
pub fn wait_key(c: char) -> (r: WaitKey)
    ensures
        r == (if c == 's' || c == 'S' {
            WaitKey::StartNow
        } else if c == 'q' || c == 'Q' {
            WaitKey::Abort
        } else {
            WaitKey::Ignore
        }),
{
    if c == 's' || c == 'S' {
        WaitKey::StartNow
    } else if c == 'q' || c == 'Q' {
        WaitKey::Abort
    } else {
        WaitKey::Ignore
    }
}

/// An answer to the recall-rating prompt.
#[derive(Clone, Copy, Debug, PartialEq, Eq)]
pub enum RatingInput {
    /// Blank: no rating.
    Skip,
    /// A rating from 0 to 5.
    Rating(u32),
    /// Anything else: ask again.
    Invalid,
}

pub open spec fn rating_spec(input: Seq<char>) -> RatingInput {
    let t = trim_spec(input);
    if t.len() == 0 {
        RatingInput::Skip
    } else {
        match parse_unsigned_spec(t, u32::MAX as nat) {
            Some(v) => if v <= 5 {
                RatingInput::Rating(v as u32)
            } else {
                RatingInput::Invalid
            },
            None => RatingInput::Invalid,
        }
    }
}

/// Reads an answer to the recall-rating prompt (0-5, blank to skip).
pub fn parse_rating(input: &str) -> (r: RatingInput)
    ensures
        r == rating_spec(input@),
{
    let t = trim(input);
    if t.unicode_len() == 0 {
        return RatingInput::Skip;
    }
    match parse_unsigned(t, 0xffff_ffff) {
        Some(v) => if v <= 5 {
            RatingInput::Rating(v as u32)
        } else {
            RatingInput::Invalid
        },
        None => RatingInput::Invalid,
    }
}

/// A number written in decimal, with any whitespace around it, is read as
/// that rating when it is one of the ratings 0 to 5 that the prompt offers,
/// and refused otherwise.
pub proof fn lemma_rating_reads_decimal(w1: Seq<char>, n: nat, w2: Seq<char>)
    requires
        all_white_space(w1),
        all_white_space(w2),
    ensures
        rating_spec(w1 + decimal_spec(n) + w2) == (if n <= 5 {
            RatingInput::Rating(n as u32)
        } else {
            RatingInput::Invalid
        }),
{
    lemma_trim_ignores_surrounding(w1, decimal_spec(n), w2);
    lemma_decimal_reads_back(n, u32::MAX as nat);
}

/// The notes of a session: the trimmed answer, or none where it is blank.
pub fn session_notes(input: &str) -> (r: Option<String>)
    ensures
        match r {
            Some(n) => n@ == trim_spec(input@) && n@.len() > 0,
            None => trim_spec(input@).len() == 0,
        },
{
    let t = trim(input);
    if t.unicode_len() == 0 {
        None
    } else {
        Some(String::from_str(t))
    }
}

/// The whole minutes of a session of `elapsed_secs` seconds, as logged.
pub fn session_minutes(elapsed_secs: i64) -> (r: u32)
    requires
        elapsed_secs >= 0,
    ensures
        r == ((elapsed_secs / 60) as u32),
{
    (elapsed_secs / 60) as u32
}


/// Two decimal digits, with a leading zero below ten.
pub open spec fn two_digits(n: nat) -> Seq<char> {
    seq![digit_char(n / 10), digit_char(n % 10)]
}

/// A time of day written `HH:MM`, as `NaiveTime::format("%H:%M")` writes it.
pub open spec fn hm_text(secs: nat) -> Seq<char> {
    two_digits(secs / 3600) + seq![':'] + two_digits((secs % 3600) / 60)
}

/// Writes a time of day given in seconds since midnight as `HH:MM`.
pub fn time_of_day_text(secs: u32) -> (r: String)
    requires
        secs < 86400,
    ensures
        r@ == hm_text(secs as nat),
{
    let h = (secs / 3600) as u64;
    let m = ((secs % 3600) / 60) as u64;
    let mut r = String::from_str(digit_str(h / 10));
    r.append(digit_str(h % 10));
    proof {
        reveal_strlit(":");
    }
    r.append(":");
    r.append(digit_str(m / 10));
    r.append(digit_str(m % 10));
    assert(r@ =~= hm_text(secs as nat));
    r
}

/// The first category with the id `id`: `k` is its index.
pub open spec fn first_category_with_id(categories: Seq<Category>, id: u32, k: int) -> bool {
    &&& 0 <= k < categories.len()
    &&& categories[k].id == id
    &&& forall|j: int| 0 <= j < k ==> categories[j].id != id
}

/// The index of the first category with the id `id`, if any.
pub fn category_index(categories: &[Category], id: u32) -> (r: Option<usize>)
    ensures
        match r {
            Some(k) => first_category_with_id(categories@, id, k as int),
            None => forall|j: int| 0 <= j < categories@.len() ==> categories@[j].id != id,
        },
{
    let mut i: usize = 0;
    while i < categories.len()
        invariant
            i <= categories@.len(),
            forall|j: int| 0 <= j < i ==> categories@[j].id != id,
        decreases categories@.len() - i,
    {
        if categories[i].id == id {
            return Some(i);
        }
        i = i + 1;
    }
    None
}


/// A table cell: a text longer than `width` bytes is cut to its first `keep`
/// bytes and marked with `...`; a shorter one is kept whole.
pub fn table_cell(text: &str, width: usize, keep: usize) -> (r: String)
    requires
        text.len() > width ==> is_char_boundary(text.spec_bytes(), keep as int),
    ensures
        text.len() <= width ==> r@ == text@,
        text.len() > width ==> r@.len() >= 3 && r@.subrange(
            r@.len() - 3,
            r@.len() as int,
        ) == "..."@ && encode_utf8(r@.subrange(0, r@.len() - 3)) == text.spec_bytes().subrange(
            0,
            keep as int,
        ),
{
    if text.len() > width {
        let (head, _) = text.split_at(keep);
        let mut r = String::from_str(head);
        r.append("...");
        proof {
            reveal_strlit("...");
            assert(r@.subrange(0, r@.len() - 3) =~= head@);
            assert(r@.subrange(r@.len() - 3, r@.len() as int) =~= "..."@);
            assert(head.spec_bytes() == encode_utf8(head@));
            assert(head.spec_bytes() =~= text.spec_bytes().subrange(0, keep as int));
            assert(encode_utf8(r@.subrange(0, r@.len() - 3)) == text.spec_bytes().subrange(
                0,
                keep as int,
            ));
        }
        r
    } else {
        String::from_str(text)
    }
}

} // verus!
