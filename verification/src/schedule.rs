//! The rules of the weekly schedule: weekday masks, times of day, and what
//! adding or removing a slot or an override, or importing a manifest, decides.
use crate::config::{CategoryConfig, ImportManifest, ScheduleConfig};
use crate::error::{agrees, fails_as, ArcaneError};
use crate::scheduler::weekday_bit;
use crate::text::{
    all_white_space, ascii_upper, concat3, decimal_spec, decimal_text, free_of, is_ascii_text,
    is_white_space, lemma_ascii_subrange, lemma_lowercase_concat, lemma_lowercase_ignores_ascii_case,
    lemma_lowercase_keeps, lemma_split_append_free, lemma_split_concat, lemma_split_nonempty,
    lemma_split_prepend_free, lemma_trim_ascii_upper, lemma_trim_bounds,
    lemma_trim_ignores_surrounding, lowercase_of, parse_unsigned, parse_unsigned_spec, split_spec,
    split_text, text_equal, to_lowercase, trim, trim_spec, views_of,
};
use vstd::prelude::*;

verus! {

/// The bit of a weekday token: `mon`/`monday` is 1 through `sun`/`sunday` 64.
pub open spec fn weekday_token_bit(t: Seq<char>) -> Option<u8> {
    if t == "mon"@ || t == "monday"@ {
        Some(1)
    } else if t == "tue"@ || t == "tuesday"@ {
        Some(2)
    } else if t == "wed"@ || t == "wednesday"@ {
        Some(4)
    } else if t == "thu"@ || t == "thursday"@ {
        Some(8)
    } else if t == "fri"@ || t == "friday"@ {
        Some(16)
    } else if t == "sat"@ || t == "saturday"@ {
        Some(32)
    } else if t == "sun"@ || t == "sunday"@ {
        Some(64)
    } else {
        None
    }
}

pub open spec fn means_every_day(t: Seq<char>) -> bool {
    t == "everyday"@ || t == "all"@ || t == "any"@ || t == "daily"@
}

pub open spec fn means_weekdays(t: Seq<char>) -> bool {
    t == "weekdays"@ || t == "weekday"@ || t == "workdays"@
}

pub open spec fn means_weekend(t: Seq<char>) -> bool {
    t == "weekend"@ || t == "weekends"@
}

pub open spec fn invalid_token_message(tok: Seq<char>) -> Seq<char> {
    "Invalid weekday token '"@ + tok
        + "'. Valid options: mon, tue, wed, thu, fri, sat, sun, weekdays, weekend, everyday"@
}

/// The mask of a comma-separated list read left to right: blank pieces are
/// skipped, the first piece that names no weekday is refused.
pub open spec fn weekday_mask_of_parts(parts: Seq<Seq<char>>) -> Result<u8, Seq<char>>
    decreases parts.len(),
{
    if parts.len() == 0 {
        Ok(0)
    } else {
        match weekday_mask_of_parts(parts.drop_last()) {
            Err(m) => Err(m),
            Ok(acc) => {
                let tok = trim_spec(parts.last());
                if tok.len() == 0 {
                    Ok(acc)
                } else {
                    match weekday_token_bit(tok) {
                        Some(b) => Ok(acc | b),
                        None => Err(invalid_token_message(tok)),
                    }
                }
            },
        }
    }
}

/// What `parse_weekdays` decides for a text.
pub open spec fn parse_weekdays_spec(input: Seq<char>) -> Result<u8, Seq<char>> {
    let t = lowercase_of(trim_spec(input));
    if t.len() == 0 {
        Err("Weekdays input cannot be empty"@)
    } else if means_every_day(t) {
        Ok(127)
    } else if means_weekdays(t) {
        Ok(31)
    } else if means_weekend(t) {
        Ok(96)
    } else {
        match weekday_mask_of_parts(split_spec(t, ',')) {
            Err(m) => Err(m),
            Ok(mask) => if mask == 0 {
                Err("No valid weekdays parsed from input"@)
            } else {
                Ok(mask)
            },
        }
    }
}

fn token_bit(tok: &str) -> (r: Option<u8>)
    ensures
        r == weekday_token_bit(tok@),
{
    if text_equal(tok, "mon") || text_equal(tok, "monday") {
        Some(1)
    } else if text_equal(tok, "tue") || text_equal(tok, "tuesday") {
        Some(2)
    } else if text_equal(tok, "wed") || text_equal(tok, "wednesday") {
        Some(4)
    } else if text_equal(tok, "thu") || text_equal(tok, "thursday") {
        Some(8)
    } else if text_equal(tok, "fri") || text_equal(tok, "friday") {
        Some(16)
    } else if text_equal(tok, "sat") || text_equal(tok, "saturday") {
        Some(32)
    } else if text_equal(tok, "sun") || text_equal(tok, "sunday") {
        Some(64)
    } else {
        None
    }
}

proof fn lemma_or_stays_in_week(a: u8, b: u8)
    requires
        a < 128,
        b < 128,
    ensures
        (a | b) < 128,
        (a | b) >= b,
{
    assert((a | b) < 128) by (bit_vector)
        requires
            a < 128,
            b < 128,
    ;
    assert((a | b) >= b) by (bit_vector);
}

/// Reads a weekday mask: `everyday`/`all`/`any`/`daily` (127),
/// `weekdays`/`weekday`/`workdays` (31), `weekend`/`weekends` (96), or a
/// comma-separated list of day tokens, case and surrounding blanks ignored.
pub fn parse_weekdays(input: &str) -> (r: Result<u8, ArcaneError>)
    ensures
        agrees(r, parse_weekdays_spec(input@)),
        r matches Ok(m) ==> 1 <= m <= 127,
{
    let lowered = to_lowercase(trim(input));
    let t = lowered.as_str();
    if t.unicode_len() == 0 {
        return Err(ArcaneError::CategoryValidation(String::from_str("Weekdays input cannot be empty")));
    }
    if text_equal(t, "everyday") || text_equal(t, "all") || text_equal(t, "any") || text_equal(
        t,
        "daily",
    ) {
        return Ok(127);
    }
    if text_equal(t, "weekdays") || text_equal(t, "weekday") || text_equal(t, "workdays") {
        return Ok(31);
    }
    if text_equal(t, "weekend") || text_equal(t, "weekends") {
        return Ok(96);
    }
    let parts = split_text(t, ',');
    let ghost pv = views_of(parts@);
    let mut bitmask: u8 = 0;
    let mut i: usize = 0;
    while i < parts.len()
        invariant
            i <= parts@.len(),
            pv == views_of(parts@),
            pv == split_spec(t@, ','),
            t@ == lowercase_of(trim_spec(input@)),
            t@.len() > 0,
            !means_every_day(t@),
            !means_weekdays(t@),
            !means_weekend(t@),
            weekday_mask_of_parts(pv.subrange(0, i as int)) == Ok::<u8, Seq<char>>(bitmask),
            bitmask < 128,
        decreases parts@.len() - i,
    {
        let ghost pre = pv.subrange(0, i as int);
        let ghost post = pv.subrange(0, i + 1);
        assert(post.drop_last() =~= pre);
        assert(post.last() == parts@[i as int]@);
        let token = trim(parts[i]);
        if token.unicode_len() != 0 {
            match token_bit(token) {
                Some(bit) => {
                    proof {
                        lemma_or_stays_in_week(bitmask, bit);
                    }
                    bitmask = bitmask | bit;
                },
                None => {
                    let msg = concat3(
                        "Invalid weekday token '",
                        token,
                        "'. Valid options: mon, tue, wed, thu, fri, sat, sun, weekdays, weekend, everyday",
                    );
                    proof {
                        assert(weekday_token_bit(token@) is None);
                        assert(trim_spec(post.last()) == token@);
                        assert(weekday_mask_of_parts(post) == Err::<u8, Seq<char>>(
                            invalid_token_message(token@),
                        ));
                        lemma_mask_error_persists(pv, i as int + 1);
                        assert(msg@ == invalid_token_message(token@));
                    }
                    return Err(ArcaneError::CategoryValidation(msg));
                },
            }
        }
        i = i + 1;
    }
    assert(pv.subrange(0, pv.len() as int) =~= pv);
    if bitmask == 0 {
        return Err(
            ArcaneError::CategoryValidation(String::from_str("No valid weekdays parsed from input")),
        );
    }
    Ok(bitmask)
}

/// Once a prefix of the pieces is refused, the whole list is refused with the same message.
proof fn lemma_mask_error_persists(parts: Seq<Seq<char>>, k: int)
    requires
        0 <= k <= parts.len(),
        weekday_mask_of_parts(parts.subrange(0, k)) is Err,
    ensures
        weekday_mask_of_parts(parts) == weekday_mask_of_parts(parts.subrange(0, k)),
    decreases parts.len() - k,
{
    if k < parts.len() {
        let post = parts.subrange(0, k + 1);
        assert(post.drop_last() =~= parts.subrange(0, k));
        lemma_mask_error_persists(parts, k + 1);
    } else {
        assert(parts.subrange(0, k) =~= parts);
    }
}


/// What the `HH:MM` check of a new slot decides for a text: exactly one `:`,
/// an hour and a minute that `u32` parsing accepts, hour at most 23 and
/// minute at most 59.
pub open spec fn time_of_day_spec(t: Seq<char>) -> Result<(u32, u32), Seq<char>> {
    let parts = split_spec(t, ':');
    if parts.len() != 2 {
        Err("Invalid time format '"@ + t + "'. Use HH:MM."@)
    } else {
        match parse_unsigned_spec(parts[0], u32::MAX as nat) {
            None => Err("Invalid hour in time '"@ + t + "'"@),
            Some(h) => match parse_unsigned_spec(parts[1], u32::MAX as nat) {
                None => Err("Invalid minute in time '"@ + t + "'"@),
                Some(m) => if h > 23 || m > 59 {
                    Err("Time parameters out of bounds in '"@ + t + "'"@)
                } else {
                    Ok((h as u32, m as u32))
                },
            },
        }
    }
}

/// Checks a time of day written `HH:MM` and gives its hour and minute.
pub fn parse_time_of_day(t: &str) -> (r: Result<(u32, u32), ArcaneError>)
    ensures
        agrees(r, time_of_day_spec(t@)),
        r matches Ok(hm) ==> hm.0 <= 23 && hm.1 <= 59,
{
    let parts = split_text(t, ':');
    assert(views_of(parts@).len() == parts@.len());
    if parts.len() != 2 {
        return Err(ArcaneError::CategoryValidation(concat3("Invalid time format '", t, "'. Use HH:MM.")));
    }
    assert(views_of(parts@)[0] == parts@[0]@);
    assert(views_of(parts@)[1] == parts@[1]@);
    let hour = match parse_unsigned(parts[0], 0xffff_ffff) {
        Some(h) => h,
        None => {
            return Err(ArcaneError::CategoryValidation(concat3("Invalid hour in time '", t, "'")));
        },
    };
    let min = match parse_unsigned(parts[1], 0xffff_ffff) {
        Some(m) => m,
        None => {
            return Err(ArcaneError::CategoryValidation(concat3("Invalid minute in time '", t, "'")));
        },
    };
    if hour > 23 || min > 59 {
        return Err(
            ArcaneError::CategoryValidation(concat3("Time parameters out of bounds in '", t, "'")),
        );
    }
    Ok((hour as u32, min as u32))
}

/// A weekly slot ready to be stored.
#[derive(Clone, Debug, PartialEq, Eq)]
pub struct NewSlot {
    pub category_id: u32,
    pub time_of_day: String,
    pub days_of_week: u8,
}

/// What adding a weekly slot decides, given the id of the active category
/// of that (trimmed) name, if there is one.
pub open spec fn new_slot_spec(
    category_name: Seq<char>,
    category_id: Option<i64>,
    time_of_day: Seq<char>,
    days: Seq<char>,
) -> Result<(u32, Seq<char>, u8), Seq<char>> {
    match category_id {
        None => Err("Category '"@ + category_name + "' does not exist or is archived"@),
        Some(id) => match time_of_day_spec(time_of_day) {
            Err(m) => Err(m),
            Ok(_) => match parse_weekdays_spec(days) {
                Err(m) => Err(m),
                Ok(mask) => Ok((id as u32, time_of_day, mask)),
            },
        },
    }
}

/// The decisions of adding a weekly slot, once the id of the active category
/// named `category_name.trim()` has been looked up: the category must exist,
/// the time must be a valid `HH:MM`, the days a valid weekday list.
pub fn check_schedule_slot(
    category_name: &str,
    category_id: Option<i64>,
    time_of_day: &str,
    days_of_week: &str,
) -> (r: Result<NewSlot, ArcaneError>)
    ensures
        fails_as(r, new_slot_spec(category_name@, category_id, time_of_day@, days_of_week@)),
        r matches Ok(s) ==> new_slot_spec(category_name@, category_id, time_of_day@, days_of_week@)
            == Ok::<(u32, Seq<char>, u8), Seq<char>>(
            (s.category_id, s.time_of_day@, s.days_of_week),
        ),
{
    let id = match category_id {
        Some(id) => id as u32,
        None => {
            return Err(
                ArcaneError::CategoryValidation(
                    concat3("Category '", category_name, "' does not exist or is archived"),
                ),
            );
        },
    };
    match parse_time_of_day(time_of_day) {
        Err(e) => {
            return Err(e);
        },
        Ok(_) => {},
    }
    let days = match parse_weekdays(days_of_week) {
        Err(e) => {
            return Err(e);
        },
        Ok(d) => d,
    };
    Ok(NewSlot { category_id: id, time_of_day: String::from_str(time_of_day), days_of_week: days })
}

/// The decisions of adding a one-day override: a named category must exist
/// and not be archived (`category_archived` is what the lookup of
/// `category_id` found), and the time must have exactly one `:`.
pub open spec fn override_spec(
    category_id: Option<u32>,
    category_archived: Option<bool>,
    time_of_day: Seq<char>,
) -> Result<(), Seq<char>> {
    match (category_id, category_archived) {
        (Some(_), Some(true)) => Err("Cannot schedule override for an archived category"@),
        (Some(c), None) => Err("Category ID "@ + decimal_spec(c as nat) + " does not exist"@),
        _ => if split_spec(time_of_day, ':').len() != 2 {
            Err("Invalid time format '"@ + time_of_day + "'. Use HH:MM."@)
        } else {
            Ok(())
        },
    }
}

pub fn check_schedule_override(
    category_id: Option<u32>,
    category_archived: Option<bool>,
    time_of_day: &str,
) -> (r: Result<(), ArcaneError>)
    ensures
        agrees(r, override_spec(category_id, category_archived, time_of_day@)),
{
    if let Some(cat_id) = category_id {
        match category_archived {
            Some(true) => {
                return Err(
                    ArcaneError::CategoryValidation(
                        String::from_str("Cannot schedule override for an archived category"),
                    ),
                );
            },
            None => {
                let id_text = decimal_text(cat_id as u64);
                return Err(
                    ArcaneError::CategoryValidation(
                        concat3("Category ID ", id_text.as_str(), " does not exist"),
                    ),
                );
            },
            _ => {},
        }
    }
    let parts = split_text(time_of_day, ':');
    assert(views_of(parts@).len() == parts@.len());
    if parts.len() != 2 {
        return Err(
            ArcaneError::CategoryValidation(
                concat3("Invalid time format '", time_of_day, "'. Use HH:MM."),
            ),
        );
    }
    Ok(())
}

/// What a one-day override names: `rest` (after trimming) is a rest block
/// with no category; any other name must be an active category, whose id
/// `category_id` is what the lookup of the trimmed name found.
pub open spec fn override_category_spec(category: Seq<char>, category_id: Option<i64>) -> Result<
    Option<u32>,
    Seq<char>,
> {
    if trim_spec(category) == "rest"@ {
        Ok(None)
    } else {
        match category_id {
            Some(id) => Ok(Some(id as u32)),
            None => Err("Category '"@ + category + "' does not exist or is archived"@),
        }
    }
}

/// The category of a one-day override: `rest` gives a rest block, another
/// name the active category of that name.
pub fn override_category(category: &str, category_id: Option<i64>) -> (r: Result<
    Option<u32>,
    ArcaneError,
>)
    ensures
        agrees(r, override_category_spec(category@, category_id)),
{
    if text_equal(trim(category), "rest") {
        return Ok(None);
    }
    match category_id {
        Some(id) => Ok(Some(id as u32)),
        None => Err(
            ArcaneError::CategoryValidation(
                concat3("Category '", category, "' does not exist or is archived"),
            ),
        ),
    }
}

/// Removing a slot: nothing removed means the slot did not exist.
pub open spec fn removal_spec(slot_id: u32, rows_affected: u64) -> Result<(), Seq<char>> {
    if rows_affected == 0 {
        Err("Schedule slot ID "@ + decimal_spec(slot_id as nat) + " does not exist"@)
    } else {
        Ok(())
    }
}

pub fn check_slot_removed(slot_id: u32, rows_affected: u64) -> (r: Result<(), ArcaneError>)
    ensures
        agrees(r, removal_spec(slot_id, rows_affected)),
{
    if rows_affected == 0 {
        let id_text = decimal_text(slot_id as u64);
        return Err(
            ArcaneError::CategoryValidation(
                concat3("Schedule slot ID ", id_text.as_str(), " does not exist"),
            ),
        );
    }
    Ok(())
}


/// One step of importing a manifest.
#[derive(Clone, Copy, Debug, PartialEq, Eq)]
pub enum ImportStep {
    /// Reconcile the manifest's category at this index.
    Category(usize),
    /// Delete the stored weekly schedule.
    ClearSchedule,
    /// Add the manifest's weekly slot at this index.
    Slot(usize),
}

/// The steps of importing a manifest with `n` categories and, where given,
/// a schedule of `m` slots: every category in order; then, only where a
/// schedule is given, the stored schedule is cleared and every slot added in
/// order. The whole import is one transaction: the first refused step
/// abandons it.
pub open spec fn import_steps_spec(n: nat, schedule: Option<nat>) -> Seq<ImportStep> {
    let cats = Seq::new(n, |i: int| ImportStep::Category(i as usize));
    match schedule {
        None => cats,
        Some(m) => cats + seq![ImportStep::ClearSchedule] + Seq::new(
            m,
            |i: int| ImportStep::Slot(i as usize),
        ),
    }
}

/// The steps of importing `manifest`, in order.
pub fn import_steps(manifest: &ImportManifest) -> (r: Vec<ImportStep>)
    ensures
        r@ == import_steps_spec(
            manifest.categories@.len(),
            match manifest.schedule {
                Some(s) => Some(s@.len()),
                None => None,
            },
        ),
{
    let mut r: Vec<ImportStep> = Vec::new();
    let n = manifest.categories.len();
    let mut i: usize = 0;
    while i < n
        invariant
            n == manifest.categories@.len(),
            i <= n,
            r@ == Seq::new(i as nat, |k: int| ImportStep::Category(k as usize)),
        decreases n - i,
    {
        r.push(ImportStep::Category(i));
        i = i + 1;
        assert(r@ =~= Seq::new(i as nat, |k: int| ImportStep::Category(k as usize)));
    }
    let ghost cats = r@;
    match &manifest.schedule {
        None => {},
        Some(list) => {
            r.push(ImportStep::ClearSchedule);
            let m = list.len();
            let mut j: usize = 0;
            while j < m
                invariant
                    m == list@.len(),
                    j <= m,
                    r@ == cats + seq![ImportStep::ClearSchedule] + Seq::new(
                        j as nat,
                        |k: int| ImportStep::Slot(k as usize),
                    ),
                decreases m - j,
            {
                r.push(ImportStep::Slot(j));
                j = j + 1;
                assert(r@ =~= cats + seq![ImportStep::ClearSchedule] + Seq::new(
                    j as nat,
                    |k: int| ImportStep::Slot(k as usize),
                ));
            }
            assert(r@ =~= cats + seq![ImportStep::ClearSchedule] + Seq::new(
                m as nat,
                |k: int| ImportStep::Slot(k as usize),
            ));
        },
    }
    r
}

/// What importing one weekly slot of a manifest decides, given the id of the
/// active category named by its trimmed category, if there is one.
pub open spec fn import_slot_spec(
    time: Seq<char>,
    category: Seq<char>,
    days: u8,
    category_id: Option<i64>,
) -> Result<(u32, Seq<char>, u8), Seq<char>> {
    match category_id {
        None => Err(
            "Category '"@ + category + "' does not exist in manifest or active database"@,
        ),
        Some(id) => match time_of_day_spec(time) {
            Err(m) => Err(m),
            Ok(_) => if days > 127 {
                Err("Days bitmask "@ + decimal_spec(days as nat) + " exceeds 127"@)
            } else {
                Ok((id as u32, time, days))
            },
        },
    }
}

/// The decisions of importing one weekly slot of a manifest: the category
/// must be active, the time a valid `HH:MM`, the mask at most 127.
pub fn plan_import_slot(sched: &ScheduleConfig, category_id: Option<i64>) -> (r: Result<
    NewSlot,
    ArcaneError,
>)
    ensures
        fails_as(r, import_slot_spec(sched.time@, sched.category@, sched.days, category_id)),
        r matches Ok(s) ==> import_slot_spec(sched.time@, sched.category@, sched.days, category_id)
            == Ok::<(u32, Seq<char>, u8), Seq<char>>(
            (s.category_id, s.time_of_day@, s.days_of_week),
        ),
{
    let id = match category_id {
        Some(id) => id as u32,
        None => {
            return Err(
                ArcaneError::CategoryValidation(
                    concat3(
                        "Category '",
                        sched.category.as_str(),
                        "' does not exist in manifest or active database",
                    ),
                ),
            );
        },
    };
    match parse_time_of_day(sched.time.as_str()) {
        Err(e) => {
            return Err(e);
        },
        Ok(_) => {},
    }
    if sched.days > 127 {
        let days_text = decimal_text(sched.days as u64);
        return Err(
            ArcaneError::CategoryValidation(
                concat3("Days bitmask ", days_text.as_str(), " exceeds 127"),
            ),
        );
    }
    Ok(NewSlot { category_id: id, time_of_day: sched.time.clone(), days_of_week: sched.days })
}


/// The day tokens name the bits of the weekdays on which dates fall (Monday
/// = 1 through Sunday = 7), and the keyword masks are unions of them:
/// weekdays are Monday to Friday, the weekend Saturday and Sunday, every
/// day both.
pub proof fn lemma_day_tokens_match_weekdays()
    ensures
        weekday_token_bit("mon"@) == Some(weekday_bit(1) as u8),
        weekday_token_bit("tue"@) == Some(weekday_bit(2) as u8),
        weekday_token_bit("wed"@) == Some(weekday_bit(3) as u8),
        weekday_token_bit("thu"@) == Some(weekday_bit(4) as u8),
        weekday_token_bit("fri"@) == Some(weekday_bit(5) as u8),
        weekday_token_bit("sat"@) == Some(weekday_bit(6) as u8),
        weekday_token_bit("sun"@) == Some(weekday_bit(7) as u8),
        weekday_token_bit("monday"@) == Some(weekday_bit(1) as u8),
        weekday_token_bit("tuesday"@) == Some(weekday_bit(2) as u8),
        weekday_token_bit("wednesday"@) == Some(weekday_bit(3) as u8),
        weekday_token_bit("thursday"@) == Some(weekday_bit(4) as u8),
        weekday_token_bit("friday"@) == Some(weekday_bit(5) as u8),
        weekday_token_bit("saturday"@) == Some(weekday_bit(6) as u8),
        weekday_token_bit("sunday"@) == Some(weekday_bit(7) as u8),
        31u8 == (1u8 | 2u8 | 4u8 | 8u8 | 16u8),
        96u8 == (32u8 | 64u8),
        127u8 == (31u8 | 96u8),
{
    reveal_strlit("mon");
    reveal_strlit("monday");
    reveal_strlit("tue");
    reveal_strlit("tuesday");
    reveal_strlit("wed");
    reveal_strlit("wednesday");
    reveal_strlit("thu");
    reveal_strlit("thursday");
    reveal_strlit("fri");
    reveal_strlit("friday");
    reveal_strlit("sat");
    reveal_strlit("saturday");
    reveal_strlit("sun");
    reveal_strlit("sunday");
    assert(1u32 << 0u32 == 1u32) by (bit_vector);
    assert(1u32 << 1u32 == 2u32) by (bit_vector);
    assert(1u32 << 2u32 == 4u32) by (bit_vector);
    assert(1u32 << 3u32 == 8u32) by (bit_vector);
    assert(1u32 << 4u32 == 16u32) by (bit_vector);
    assert(1u32 << 5u32 == 32u32) by (bit_vector);
    assert(1u32 << 6u32 == 64u32) by (bit_vector);
    assert(31u8 == (1u8 | 2u8 | 4u8 | 8u8 | 16u8)) by (bit_vector);
    assert(96u8 == (32u8 | 64u8)) by (bit_vector);
    assert(127u8 == (31u8 | 96u8)) by (bit_vector);
    assert("mon"@.len() == 3 && "mon"@[0] == 'm' && "mon"@[1] == 'o');
    assert("monday"@.len() == 6 && "monday"@[0] == 'm' && "monday"@[1] == 'o');
    assert("tue"@.len() == 3 && "tue"@[0] == 't' && "tue"@[1] == 'u');
    assert("tuesday"@.len() == 7 && "tuesday"@[0] == 't' && "tuesday"@[1] == 'u');
    assert("wed"@.len() == 3 && "wed"@[0] == 'w' && "wed"@[1] == 'e');
    assert("wednesday"@.len() == 9 && "wednesday"@[0] == 'w' && "wednesday"@[1] == 'e');
    assert("thu"@.len() == 3 && "thu"@[0] == 't' && "thu"@[1] == 'h');
    assert("thursday"@.len() == 8 && "thursday"@[0] == 't' && "thursday"@[1] == 'h');
    assert("fri"@.len() == 3 && "fri"@[0] == 'f' && "fri"@[1] == 'r');
    assert("friday"@.len() == 6 && "friday"@[0] == 'f' && "friday"@[1] == 'r');
    assert("sat"@.len() == 3 && "sat"@[0] == 's' && "sat"@[1] == 'a');
    assert("saturday"@.len() == 8 && "saturday"@[0] == 's' && "saturday"@[1] == 'a');
    assert("sun"@.len() == 3 && "sun"@[0] == 's' && "sun"@[1] == 'u');
    assert("sunday"@.len() == 6 && "sunday"@[0] == 's' && "sunday"@[1] == 'u');
    assert("mon"@ != "monday"@);
    assert("tue"@ != "mon"@ && "tue"@ != "monday"@);
    assert("wed"@ != "mon"@ && "wed"@ != "monday"@ && "wed"@ != "tue"@ && "wed"@ != "tuesday"@);
    assert("thu"@ != "mon"@ && "thu"@ != "monday"@ && "thu"@ != "tue"@ && "thu"@ != "tuesday"@
        && "thu"@ != "wed"@ && "thu"@ != "wednesday"@);
    assert("fri"@ != "mon"@ && "fri"@ != "monday"@ && "fri"@ != "tue"@ && "fri"@ != "tuesday"@
        && "fri"@ != "wed"@ && "fri"@ != "wednesday"@ && "fri"@ != "thu"@ && "fri"@
        != "thursday"@);
    assert("sat"@ != "mon"@ && "sat"@ != "monday"@ && "sat"@ != "tue"@ && "sat"@ != "tuesday"@
        && "sat"@ != "wed"@ && "sat"@ != "wednesday"@ && "sat"@ != "thu"@ && "sat"@
        != "thursday"@ && "sat"@ != "fri"@ && "sat"@ != "friday"@);
    assert("sun"@ != "mon"@ && "sun"@ != "monday"@ && "sun"@ != "tue"@ && "sun"@ != "tuesday"@
        && "sun"@ != "wed"@ && "sun"@ != "wednesday"@ && "sun"@ != "thu"@ && "sun"@
        != "thursday"@ && "sun"@ != "fri"@ && "sun"@ != "friday"@ && "sun"@ != "sat"@ && "sun"@
        != "saturday"@);
}


/// A day is named by its full name or by the first three letters of it, and
/// both name the same day: every day token longer than three letters is a
/// full name ending in "day" whose first three letters are a token of the
/// same bit.
pub proof fn lemma_full_day_names_share_short_bits(t: Seq<char>)
    requires
        weekday_token_bit(t) is Some,
        t.len() > 3,
    ensures
        weekday_token_bit(t.take(3)) == weekday_token_bit(t),
        t.skip(t.len() - 3) == "day"@,
{
    lemma_day_tokens_match_weekdays();
    reveal_strlit("mon");
    reveal_strlit("monday");
    reveal_strlit("tue");
    reveal_strlit("tuesday");
    reveal_strlit("wed");
    reveal_strlit("wednesday");
    reveal_strlit("thu");
    reveal_strlit("thursday");
    reveal_strlit("fri");
    reveal_strlit("friday");
    reveal_strlit("sat");
    reveal_strlit("saturday");
    reveal_strlit("sun");
    reveal_strlit("sunday");
    reveal_strlit("day");
    if t == "monday"@ {
        assert(t.take(3) =~= "mon"@);
        assert(t.skip(3) =~= "day"@);
    } else if t == "tuesday"@ {
        assert(t.take(3) =~= "tue"@);
        assert(t.skip(4) =~= "day"@);
    } else if t == "wednesday"@ {
        assert(t.take(3) =~= "wed"@);
        assert(t.skip(6) =~= "day"@);
    } else if t == "thursday"@ {
        assert(t.take(3) =~= "thu"@);
        assert(t.skip(5) =~= "day"@);
    } else if t == "friday"@ {
        assert(t.take(3) =~= "fri"@);
        assert(t.skip(3) =~= "day"@);
    } else if t == "saturday"@ {
        assert(t.take(3) =~= "sat"@);
        assert(t.skip(5) =~= "day"@);
    } else if t == "sunday"@ {
        assert(t.take(3) =~= "sun"@);
        assert(t.skip(3) =~= "day"@);
    } else {
        assert(t.len() == 3);
    }
}

/// Whitespace around a weekday list does not change what `parse_weekdays`
/// decides.
pub proof fn lemma_weekdays_ignore_surrounding_whitespace(w1: Seq<char>, s: Seq<char>, w2: Seq<char>)
    requires
        all_white_space(w1),
        all_white_space(w2),
    ensures
        parse_weekdays_spec(w1 + s + w2) == parse_weekdays_spec(s),
{
    lemma_trim_ignores_surrounding(w1, s, w2);
}

/// The case of the ASCII letters of a weekday list does not change what
/// `parse_weekdays` decides.
pub proof fn lemma_weekdays_ignore_ascii_case(s: Seq<char>)
    ensures
        parse_weekdays_spec(ascii_upper(s)) == parse_weekdays_spec(s),
{
    lemma_trim_ascii_upper(s);
    lemma_lowercase_ignores_ascii_case(trim_spec(s));
}

/// Letter case and surrounding whitespace are ignored: upper-casing the ASCII
/// letters of any weekday list, putting whitespace around it, or both, leaves
/// what `parse_weekdays` decides unchanged.
pub proof fn lemma_weekdays_ignore_case_and_blanks(w1: Seq<char>, s: Seq<char>, w2: Seq<char>)
    requires
        all_white_space(w1),
        all_white_space(w2),
    ensures
        parse_weekdays_spec(ascii_upper(s)) == parse_weekdays_spec(s),
        parse_weekdays_spec(w1 + s + w2) == parse_weekdays_spec(s),
        parse_weekdays_spec(w1 + ascii_upper(s) + w2) == parse_weekdays_spec(s),
{
    lemma_weekdays_ignore_ascii_case(s);
    lemma_weekdays_ignore_surrounding_whitespace(w1, s, w2);
    lemma_weekdays_ignore_surrounding_whitespace(w1, ascii_upper(s), w2);
}

/// The mask of a list depends only on its trimmed pieces.
proof fn lemma_mask_same_tokens(p1: Seq<Seq<char>>, p2: Seq<Seq<char>>)
    requires
        p1.len() == p2.len(),
        forall|i: int| 0 <= i < p1.len() ==> trim_spec(#[trigger] p1[i]) == trim_spec(p2[i]),
    ensures
        weekday_mask_of_parts(p1) == weekday_mask_of_parts(p2),
    decreases p1.len(),
{
    if p1.len() > 0 {
        let q1 = p1.drop_last();
        let q2 = p2.drop_last();
        assert forall|i: int| 0 <= i < q1.len() implies trim_spec(#[trigger] q1[i]) == trim_spec(
            q2[i],
        ) by {
            assert(q1[i] == p1[i] && q2[i] == p2[i]);
        }
        lemma_mask_same_tokens(q1, q2);
        assert(trim_spec(p1.last()) == trim_spec(p2.last()));
    }
}

/// The mask of two lists read one after the other is the union of their masks.
proof fn lemma_mask_concat(p: Seq<Seq<char>>, q: Seq<Seq<char>>, x: u8, y: u8)
    requires
        weekday_mask_of_parts(p) == Ok::<u8, Seq<char>>(x),
        weekday_mask_of_parts(q) == Ok::<u8, Seq<char>>(y),
    ensures
        weekday_mask_of_parts(p + q) == Ok::<u8, Seq<char>>(x | y),
    decreases q.len(),
{
    if q.len() == 0 {
        assert(p + q =~= p);
        assert(y == 0);
        assert((x | 0u8) == x) by (bit_vector);
    } else {
        let q1 = q.drop_last();
        assert((p + q).drop_last() =~= p + q1);
        assert((p + q).last() == q.last());
        match weekday_mask_of_parts(q1) {
            Ok(y1) => {
                lemma_mask_concat(p, q1, x, y1);
                let tok = trim_spec(q.last());
                if tok.len() != 0 {
                    match weekday_token_bit(tok) {
                        Some(b) => {
                            assert(y == (y1 | b));
                            assert(((x | y1) | b) == (x | (y1 | b))) by (bit_vector);
                        },
                        None => {},
                    }
                }
            },
            Err(_) => {},
        }
    }
}

pub open spec fn is_weekday_keyword(t: Seq<char>) -> bool {
    means_every_day(t) || means_weekdays(t) || means_weekend(t)
}

/// No keyword holds a comma.
proof fn lemma_comma_is_no_keyword(t: Seq<char>, k: int)
    requires
        0 <= k < t.len(),
        t[k] == ',',
    ensures
        !is_weekday_keyword(t),
{
    reveal_strlit("everyday");
    reveal_strlit("all");
    reveal_strlit("any");
    reveal_strlit("daily");
    reveal_strlit("weekdays");
    reveal_strlit("weekday");
    reveal_strlit("workdays");
    reveal_strlit("weekend");
    reveal_strlit("weekends");
    assert("everyday"@ =~= seq!['e', 'v', 'e', 'r', 'y', 'd', 'a', 'y']);
    assert("all"@ =~= seq!['a', 'l', 'l']);
    assert("any"@ =~= seq!['a', 'n', 'y']);
    assert("daily"@ =~= seq!['d', 'a', 'i', 'l', 'y']);
    assert("weekdays"@ =~= seq!['w', 'e', 'e', 'k', 'd', 'a', 'y', 's']);
    assert("weekday"@ =~= seq!['w', 'e', 'e', 'k', 'd', 'a', 'y']);
    assert("workdays"@ =~= seq!['w', 'o', 'r', 'k', 'd', 'a', 'y', 's']);
    assert("weekend"@ =~= seq!['w', 'e', 'e', 'k', 'e', 'n', 'd']);
    assert("weekends"@ =~= seq!['w', 'e', 'e', 'k', 'e', 'n', 'd', 's']);
}

/// Two ASCII lists of day tokens joined by a comma give the union of their
/// masks: repeated days are counted once (`mon,mon` is Monday).
pub proof fn lemma_weekday_lists_join(a: Seq<char>, b: Seq<char>, x: u8, y: u8)
    requires
        is_ascii_text(a),
        is_ascii_text(b),
        parse_weekdays_spec(a) == Ok::<u8, Seq<char>>(x),
        parse_weekdays_spec(b) == Ok::<u8, Seq<char>>(y),
        !is_weekday_keyword(lowercase_of(trim_spec(a))),
        !is_weekday_keyword(lowercase_of(trim_spec(b))),
    ensures
        parse_weekdays_spec(a + seq![','] + b) == Ok::<u8, Seq<char>>(x | y),
{
    let (ai, aj) = lemma_trim_bounds(a);
    let (bi, bj) = lemma_trim_bounds(b);
    let ta = trim_spec(a);
    let tb = trim_spec(b);
    lemma_ascii_subrange(a, ai, aj);
    lemma_ascii_subrange(b, bi, bj);
    let la = lowercase_of(ta);
    let lb = lowercase_of(tb);
    assert(la.len() == ta.len() && lb.len() == tb.len());
    assert(ai < aj);
    assert(bi < bj);
    assert(weekday_mask_of_parts(split_spec(la, ',')) == Ok::<u8, Seq<char>>(x) && x != 0);
    assert(weekday_mask_of_parts(split_spec(lb, ',')) == Ok::<u8, Seq<char>>(y));

    // The trimmed joined text.
    let j = a + seq![','] + b;
    assert forall|k: int| 0 <= k < ai implies is_white_space(#[trigger] j[k]) by {
        assert(j[k] == a[k]);
    }
    assert(j[ai] == a[ai]);
    crate::text::lemma_trim_start_at(j, ai);
    let u = j.subrange(ai, j.len() as int);
    let e = a.len() + 1 + bj - ai;
    assert forall|k: int| e <= k < u.len() implies is_white_space(#[trigger] u[k]) by {
        assert(u[k] == j[k + ai]);
        assert(j[k + ai] == b[k + ai - a.len() - 1]);
    }
    assert(u[e - 1] == b[bj - 1]);
    crate::text::lemma_trim_end_at(u, e);
    let wa = a.subrange(aj, a.len() as int);
    let wb = b.subrange(0, bi);
    assert(trim_spec(j) =~= (ta + wa) + seq![','] + (wb + tb));

    // Lowercased.
    lemma_ascii_subrange(a, aj, a.len() as int);
    lemma_ascii_subrange(b, 0, bi);
    assert forall|k: int| 0 <= k < wa.len() implies !('A' <= #[trigger] wa[k] && wa[k] <= 'Z') by {
        assert(is_white_space(a[k + aj]));
    }
    assert forall|k: int| 0 <= k < wb.len() implies !('A' <= #[trigger] wb[k] && wb[k] <= 'Z') by {
        assert(is_white_space(b[k]));
    }
    lemma_lowercase_keeps(wa);
    lemma_lowercase_keeps(wb);
    let comma = seq![','];
    assert(is_ascii_text(comma));
    lemma_lowercase_keeps(comma);
    lemma_lowercase_concat(ta, wa);
    lemma_lowercase_concat(wb, tb);
    lemma_lowercase_concat(ta + wa, comma);
    lemma_lowercase_concat((ta + wa) + comma, wb + tb);
    let big_a = la + wa;
    let big_b = wb + lb;
    assert(lowercase_of(trim_spec(j)) == big_a + comma + big_b);

    // Its pieces.
    lemma_split_concat(big_a, big_b, ',');
    assert(free_of(wa, ',')) by {
        assert forall|k: int| 0 <= k < wa.len() implies #[trigger] wa[k] != ',' by {
            assert(is_white_space(a[k + aj]));
        }
    }
    assert(free_of(wb, ',')) by {
        assert forall|k: int| 0 <= k < wb.len() implies #[trigger] wb[k] != ',' by {
            assert(is_white_space(b[k]));
        }
    }
    lemma_split_append_free(la, wa, ',');
    lemma_split_prepend_free(wb, lb, ',');
    lemma_split_nonempty(la, ',');
    lemma_split_nonempty(lb, ',');
    let sa = split_spec(la, ',');
    let sb = split_spec(lb, ',');
    assert(all_white_space(wa)) by {
        assert forall|k: int| 0 <= k < wa.len() implies is_white_space(#[trigger] wa[k]) by {
            assert(wa[k] == a[k + aj]);
        }
    }
    assert(all_white_space(wb)) by {
        assert forall|k: int| 0 <= k < wb.len() implies is_white_space(#[trigger] wb[k]) by {
            assert(wb[k] == b[k]);
        }
    }
    let empty = Seq::<char>::empty();
    assert(all_white_space(empty));
    lemma_trim_ignores_surrounding(empty, sa.last(), wa);
    assert(empty + sa.last() + wa =~= sa.last() + wa);
    lemma_trim_ignores_surrounding(wb, sb[0], empty);
    assert(wb + sb[0] + empty =~= wb + sb[0]);
    let spa = split_spec(big_a, ',');
    let spb = split_spec(big_b, ',');
    assert forall|i: int| 0 <= i < spa.len() implies trim_spec(#[trigger] spa[i]) == trim_spec(
        sa[i],
    ) by {}
    assert forall|i: int| 0 <= i < spb.len() implies trim_spec(#[trigger] spb[i]) == trim_spec(
        sb[i],
    ) by {}
    lemma_mask_same_tokens(spa, sa);
    lemma_mask_same_tokens(spb, sb);
    lemma_mask_concat(spa, spb, x, y);
    assert((x | y) != 0) by (bit_vector)
        requires
            x != 0,
    ;

    // A list with a comma is no keyword.
    let t = lowercase_of(trim_spec(j));
    assert(t[big_a.len() as int] == ',');
    lemma_comma_is_no_keyword(t, big_a.len() as int);
}

} // verus!
