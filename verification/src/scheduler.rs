//! The timeline of a day: weekly slots merged with the overrides of the day.
use crate::date::{weekday_from_monday, Date};
use crate::models::{ScheduleOverride, ScheduleSlot, ScheduleSlotDetail};
use crate::text::{lemma_text_less_asymmetric, lemma_text_less_irreflexive, lemma_text_less_total,
    lemma_text_less_transitive, text_equal, text_less, text_precedes};
use vstd::prelude::*;

verus! {

/// One block of the resolved timeline.
#[derive(Clone, Debug, PartialEq, Eq)]
pub struct TimelineBlock {
    pub time_of_day: String,
    pub category_id: u32,
}

/// The bit of a weekday in a weekday mask: Monday (1) is bit 0, Sunday (7) is bit 6.
pub open spec fn weekday_bit(number_from_monday: u32) -> u32 {
    1u32 << ((number_from_monday - 1) as u32)
}

/// The bit of the weekday on which a date falls.
pub open spec fn date_weekday_bit(date: (i32, u32, u32)) -> u32 {
    weekday_bit(weekday_from_monday(date.0 as int, date.1 as int, date.2 as int) as u32)
}

/// A slot is active on the weekday whose bit is `bit`.
pub open spec fn slot_active(slot: ScheduleSlot, bit: u32) -> bool {
    (slot.days_of_week as u32) & bit != 0
}

/// `k` is the first override at time `t`.
pub open spec fn first_override_at(ovs: Seq<ScheduleOverride>, t: Seq<char>, k: int) -> bool {
    &&& 0 <= k < ovs.len()
    &&& ovs[k].time_of_day@ == t
    &&& forall|j: int| 0 <= j < k ==> ovs[j].time_of_day@ != t
}

/// `k` is the first slot active on the day at time `t`.
pub open spec fn first_active_slot_at(
    slots: Seq<ScheduleSlot>,
    bit: u32,
    t: Seq<char>,
    k: int,
) -> bool {
    &&& 0 <= k < slots.len()
    &&& slot_active(slots[k], bit)
    &&& slots[k].time_of_day@ == t
    &&& forall|j: int| 0 <= j < k ==> !(slot_active(slots[j], bit) && slots[j].time_of_day@ == t)
}

/// Some override or some active slot names the time `t`.
pub open spec fn is_candidate_time(
    slots: Seq<ScheduleSlot>,
    ovs: Seq<ScheduleOverride>,
    bit: u32,
    t: Seq<char>,
) -> bool {
    ||| exists|k: int| 0 <= k < ovs.len() && ovs[k].time_of_day@ == t
    ||| exists|k: int| 0 <= k < slots.len() && slot_active(slots[k], bit) && slots[k].time_of_day@ == t
}

/// The category scheduled at time `t`: the first override at `t` decides
/// (a rest override gives none); without an override, the first slot active
/// on the day at `t`; otherwise none.
pub open spec fn block_category(
    slots: Seq<ScheduleSlot>,
    ovs: Seq<ScheduleOverride>,
    bit: u32,
    t: Seq<char>,
) -> Option<u32> {
    if exists|k: int| first_override_at(ovs, t, k) {
        ovs[choose|k: int| first_override_at(ovs, t, k)].category_id
    } else if exists|k: int| first_active_slot_at(slots, bit, t, k) {
        Some(slots[choose|k: int| first_active_slot_at(slots, bit, t, k)].category_id)
    } else {
        None
    }
}

/// `r` is the timeline of the day: one block for each time at which a
/// category is scheduled, in increasing order of time, with that category.
pub open spec fn is_resolved_timeline(
    slots: Seq<ScheduleSlot>,
    ovs: Seq<ScheduleOverride>,
    bit: u32,
    r: Seq<TimelineBlock>,
) -> bool {
    &&& forall|i: int, j: int|
        0 <= i < j < r.len() ==> text_less(r[i].time_of_day@, r[j].time_of_day@)
    &&& forall|i: int|
        0 <= i < r.len() ==> block_category(slots, ovs, bit, #[trigger] r[i].time_of_day@) == Some(
            r[i].category_id,
        )
    &&& forall|t: Seq<char>|
        (#[trigger] block_category(slots, ovs, bit, t)) is Some ==> exists|i: int|
            0 <= i < r.len() && r[i].time_of_day@ == t
}

pub open spec fn views(v: Seq<String>) -> Seq<Seq<char>> {
    v.map_values(|s: String| s@)
}

pub open spec fn strictly_sorted(s: Seq<Seq<char>>) -> bool {
    forall|i: int, j: int| 0 <= i < j < s.len() ==> text_less(s[i], s[j])
}

proof fn lemma_first_override_exists(ovs: Seq<ScheduleOverride>, t: Seq<char>, k: int)
    requires
        0 <= k < ovs.len(),
        ovs[k].time_of_day@ == t,
    ensures
        exists|m: int| first_override_at(ovs, t, m),
    decreases k,
{
    if exists|j: int| 0 <= j < k && ovs[j].time_of_day@ == t {
        let j = choose|j: int| 0 <= j < k && ovs[j].time_of_day@ == t;
        lemma_first_override_exists(ovs, t, j);
    } else {
        assert(first_override_at(ovs, t, k));
    }
}

proof fn lemma_first_slot_exists(slots: Seq<ScheduleSlot>, bit: u32, t: Seq<char>, k: int)
    requires
        0 <= k < slots.len(),
        slot_active(slots[k], bit),
        slots[k].time_of_day@ == t,
    ensures
        exists|m: int| first_active_slot_at(slots, bit, t, m),
    decreases k,
{
    if exists|j: int| 0 <= j < k && slot_active(slots[j], bit) && slots[j].time_of_day@ == t {
        let j = choose|j: int|
            0 <= j < k && slot_active(slots[j], bit) && slots[j].time_of_day@ == t;
        lemma_first_slot_exists(slots, bit, t, j);
    } else {
        assert(first_active_slot_at(slots, bit, t, k));
    }
}

/// A time with a block is a time named by an override or an active slot.
proof fn lemma_block_is_candidate(
    slots: Seq<ScheduleSlot>,
    ovs: Seq<ScheduleOverride>,
    bit: u32,
    t: Seq<char>,
)
    requires
        block_category(slots, ovs, bit, t) is Some,
    ensures
        is_candidate_time(slots, ovs, bit, t),
{
    if exists|k: int| first_override_at(ovs, t, k) {
        let k = choose|k: int| first_override_at(ovs, t, k);
        assert(0 <= k < ovs.len() && ovs[k].time_of_day@ == t);
    } else {
        let k = choose|k: int| first_active_slot_at(slots, bit, t, k);
        assert(0 <= k < slots.len() && slot_active(slots[k], bit) && slots[k].time_of_day@ == t);
    }
}

/// The first override at `t`, if any override names `t`.
fn find_override(ovs: &[ScheduleOverride], t: &str) -> (r: Option<usize>)
    ensures
        match r {
            Some(k) => first_override_at(ovs@, t@, k as int),
            None => forall|k: int| 0 <= k < ovs@.len() ==> ovs@[k].time_of_day@ != t@,
        },
{
    let mut i: usize = 0;
    while i < ovs.len()
        invariant
            i <= ovs@.len(),
            forall|j: int| 0 <= j < i ==> ovs@[j].time_of_day@ != t@,
        decreases ovs@.len() - i,
    {
        if text_equal(ovs[i].time_of_day.as_str(), t) {
            return Some(i);
        }
        i = i + 1;
    }
    None
}

/// The first slot active on the day at `t`, if any.
fn find_active_slot(slots: &[ScheduleSlot], bit: u32, t: &str) -> (r: Option<usize>)
    ensures
        match r {
            Some(k) => first_active_slot_at(slots@, bit, t@, k as int),
            None => forall|k: int|
                0 <= k < slots@.len() ==> !(slot_active(slots@[k], bit) && slots@[k].time_of_day@
                    == t@),
        },
{
    let mut i: usize = 0;
    while i < slots.len()
        invariant
            i <= slots@.len(),
            forall|j: int|
                0 <= j < i ==> !(slot_active(slots@[j], bit) && slots@[j].time_of_day@ == t@),
        decreases slots@.len() - i,
    {
        if (slots[i].days_of_week as u32) & bit != 0 && text_equal(
            slots[i].time_of_day.as_str(),
            t,
        ) {
            return Some(i);
        }
        i = i + 1;
    }
    None
}

/// Adds a time to a strictly sorted list of times, unless it is there already.
fn insert_time(times: &mut Vec<String>, t: &String)
    requires
        strictly_sorted(views(old(times)@)),
    ensures
        strictly_sorted(views(final(times)@)),
        forall|x: Seq<char>|
            views(final(times)@).contains(x) <==> (views(old(times)@).contains(x) || x == t@),
{
    let ghost old_views = views(times@);
    let mut i: usize = 0;
    while i < times.len() && text_precedes(times[i].as_str(), t.as_str())
        invariant
            views(times@) == old_views,
            strictly_sorted(old_views),
            i <= times@.len(),
            forall|j: int| 0 <= j < i ==> text_less(#[trigger] old_views[j], t@),
        decreases times@.len() - i,
    {
        assert(old_views[i as int] == times@[i as int]@);
        i = i + 1;
    }
    if i < times.len() && text_equal(times[i].as_str(), t.as_str()) {
        assert(old_views[i as int] == t@);
        assert forall|x: Seq<char>|
            views(times@).contains(x) <==> (old_views.contains(x) || x == t@) by {
            if x == t@ {
                assert(old_views[i as int] == x);
            }
        }
        return ;
    }
    proof {
        if i < times@.len() {
            assert(old_views[i as int] == times@[i as int]@);
            lemma_text_less_total(old_views[i as int], t@);
        }
    }
    let item = t.clone();
    times.insert(i, item);
    let ghost new_views = views(times@);
    assert(new_views =~= old_views.insert(i as int, t@));
    assert forall|a: int, b: int| 0 <= a < b < new_views.len() implies text_less(
        new_views[a],
        new_views[b],
    ) by {
        if b < i {
        } else if b == i {
        } else if a < i {
            assert(text_less(old_views[a], t@));
            if (b - 1) > i {
                assert(text_less(t@, old_views[i as int]));
                lemma_text_less_transitive(t@, old_views[i as int], old_views[b - 1]);
            }
            lemma_text_less_transitive(old_views[a], t@, old_views[b - 1]);
        } else if a == i {
            if (b - 1) > i {
                lemma_text_less_transitive(t@, old_views[i as int], old_views[b - 1]);
            }
        } else {
        }
    }
    assert forall|x: Seq<char>|
        new_views.contains(x) <==> (old_views.contains(x) || x == t@) by {
        if new_views.contains(x) {
            let k = choose|k: int| 0 <= k < new_views.len() && new_views[k] == x;
            if k < i {
                assert(old_views[k] == x);
            } else if k > i {
                assert(old_views[k - 1] == x);
            }
        }
        if old_views.contains(x) {
            let k = choose|k: int| 0 <= k < old_views.len() && old_views[k] == x;
            if k < i {
                assert(new_views[k] == x);
            } else {
                assert(new_views[k + 1] == x);
            }
        }
        if x == t@ {
            assert(new_views[i as int] == x);
        }
    }
}

/// The day's timeline: the times named by the day's overrides and by the
/// weekly slots active on the weekday of `date`, in increasing order, each
/// with the category of its first override (a rest override drops the time)
/// or else of its first active slot.
pub fn resolve_timeline(date: Date, slots: &[ScheduleSlot], overrides: &[ScheduleOverride]) -> (r:
    Vec<TimelineBlock>)
    ensures
        is_resolved_timeline(slots@, overrides@, date_weekday_bit(date@), r@),
{
    let num_from_monday = date.weekday_number_from_monday();
    let weekday_bit: u32 = 1u32 << (num_from_monday - 1);
    assert(weekday_bit == date_weekday_bit(date@));
    let ghost sl = slots@;
    let ghost ov = overrides@;

    // The distinct times of the overrides and of the active slots, in order.
    let mut times: Vec<String> = Vec::new();
    let mut i: usize = 0;
    while i < overrides.len()
        invariant
            i <= ov.len(),
            ov == overrides@,
            strictly_sorted(views(times@)),
            forall|x: Seq<char>|
                views(times@).contains(x) <==> exists|k: int|
                    0 <= k < i && ov[k].time_of_day@ == x,
        decreases ov.len() - i,
    {
        insert_time(&mut times, &overrides[i].time_of_day);
        assert forall|x: Seq<char>|
            views(times@).contains(x) <==> exists|k: int|
                0 <= k < i + 1 && ov[k].time_of_day@ == x by {
            if x == ov[i as int].time_of_day@ {
                assert(0 <= i < i + 1 && ov[i as int].time_of_day@ == x);
            }
            if exists|k: int| 0 <= k < i + 1 && ov[k].time_of_day@ == x {
                let k = choose|k: int| 0 <= k < i + 1 && ov[k].time_of_day@ == x;
                if k < i {
                    assert(exists|k: int| 0 <= k < i && ov[k].time_of_day@ == x);
                }
            }
        }
        i = i + 1;
    }
    let mut i: usize = 0;
    while i < slots.len()
        invariant
            i <= sl.len(),
            sl == slots@,
            ov == overrides@,
            strictly_sorted(views(times@)),
            forall|x: Seq<char>|
                views(times@).contains(x) <==> ((exists|k: int|
                    0 <= k < ov.len() && ov[k].time_of_day@ == x) || (exists|k: int|
                    0 <= k < i && slot_active(sl[k], weekday_bit) && sl[k].time_of_day@ == x)),
        decreases sl.len() - i,
    {
        if (slots[i].days_of_week as u32) & weekday_bit != 0 {
            insert_time(&mut times, &slots[i].time_of_day);
        }
        assert forall|x: Seq<char>|
            views(times@).contains(x) <==> ((exists|k: int|
                0 <= k < ov.len() && ov[k].time_of_day@ == x) || (exists|k: int|
                0 <= k < i + 1 && slot_active(sl[k], weekday_bit) && sl[k].time_of_day@ == x)) by {
            if slot_active(sl[i as int], weekday_bit) && x == sl[i as int].time_of_day@ {
                assert(0 <= i < i + 1 && slot_active(sl[i as int], weekday_bit)
                    && sl[i as int].time_of_day@ == x);
            }
            if exists|k: int|
                0 <= k < i + 1 && slot_active(sl[k], weekday_bit) && sl[k].time_of_day@ == x {
                let k = choose|k: int|
                    0 <= k < i + 1 && slot_active(sl[k], weekday_bit) && sl[k].time_of_day@ == x;
                if k < i {
                    assert(exists|k: int|
                        0 <= k < i && slot_active(sl[k], weekday_bit) && sl[k].time_of_day@ == x);
                }
            }
        }
        i = i + 1;
    }
    let ghost tv = views(times@);
    assert forall|x: Seq<char>| tv.contains(x) <==> is_candidate_time(sl, ov, weekday_bit, x) by {}

    // One block for each time that has a category.
    let mut blocks: Vec<TimelineBlock> = Vec::new();
    let ghost mut idx: Seq<int> = Seq::empty();
    let mut i: usize = 0;
    while i < times.len()
        invariant
            i <= tv.len(),
            tv == views(times@),
            sl == slots@,
            ov == overrides@,
            strictly_sorted(tv),
            forall|x: Seq<char>| tv.contains(x) <==> is_candidate_time(sl, ov, weekday_bit, x),
            idx.len() == blocks@.len(),
            forall|j: int| 0 <= j < idx.len() ==> 0 <= #[trigger] idx[j] < i,
            forall|j: int, l: int| 0 <= j < l < idx.len() ==> idx[j] < idx[l],
            forall|j: int|
                0 <= j < blocks@.len() ==> #[trigger] blocks@[j].time_of_day@ == tv[idx[j]],
            forall|j: int|
                0 <= j < blocks@.len() ==> block_category(
                    sl,
                    ov,
                    weekday_bit,
                    #[trigger] blocks@[j].time_of_day@,
                ) == Some(blocks@[j].category_id),
            forall|k: int|
                0 <= k < i && (#[trigger] block_category(sl, ov, weekday_bit, tv[k])) is Some
                    ==> exists|j: int| 0 <= j < blocks@.len() && blocks@[j].time_of_day@ == tv[k],
        decreases tv.len() - i,
    {
        let ghost prev_blocks = blocks@;
        let t = &times[i];
        assert(t@ == tv[i as int]);
        match find_override(overrides, t.as_str()) {
            Some(k) => {
                proof {
                    assert(exists|m: int| first_override_at(ov, t@, m));
                    let c = choose|m: int| first_override_at(ov, t@, m);
                    if c < k {
                        assert(ov[c].time_of_day@ == t@);
                    } else if c > k {
                        assert(ov[k as int].time_of_day@ == t@);
                    }
                    assert(c == k);
                }
                if let Some(cat_id) = overrides[k].category_id {
                    let ghost old_blocks = blocks@;
                    blocks.push(TimelineBlock { time_of_day: t.clone(), category_id: cat_id });
                    proof {
                        idx = idx.push(i as int);
                        assert forall|j: int|
                            0 <= j < blocks@.len() implies #[trigger] blocks@[j].time_of_day@
                                == tv[idx[j]] by {
                            if j < old_blocks.len() {
                                assert(blocks@[j] == old_blocks[j]);
                            }
                        }
                    }
                }
            },
            None => {
                proof {
                    if exists|m: int| first_override_at(ov, t@, m) {
                        let m = choose|m: int| first_override_at(ov, t@, m);
                        assert(ov[m].time_of_day@ == t@);
                    }
                }
                match find_active_slot(slots, weekday_bit, t.as_str()) {
                    Some(k) => {
                        proof {
                            assert(exists|m: int| first_active_slot_at(sl, weekday_bit, t@, m));
                            let c = choose|m: int| first_active_slot_at(sl, weekday_bit, t@, m);
                            if c < k {
                                assert(slot_active(sl[c], weekday_bit) && sl[c].time_of_day@
                                    == t@);
                            } else if c > k {
                                assert(slot_active(sl[k as int], weekday_bit)
                                    && sl[k as int].time_of_day@ == t@);
                            }
                            assert(c == k);
                        }
                        let ghost old_blocks = blocks@;
                        blocks.push(
                            TimelineBlock {
                                time_of_day: t.clone(),
                                category_id: slots[k].category_id,
                            },
                        );
                        proof {
                            idx = idx.push(i as int);
                            assert forall|j: int|
                                0 <= j < blocks@.len() implies #[trigger] blocks@[j].time_of_day@
                                    == tv[idx[j]] by {
                                if j < old_blocks.len() {
                                    assert(blocks@[j] == old_blocks[j]);
                                }
                            }
                        }
                    },
                    None => {
                        proof {
                            if exists|m: int| first_active_slot_at(sl, weekday_bit, t@, m) {
                                let m = choose|m: int| first_active_slot_at(sl, weekday_bit, t@, m);
                                assert(slot_active(sl[m], weekday_bit) && sl[m].time_of_day@
                                    == t@);
                            }
                        }
                    },
                }
            },
        }
        proof {
            assert forall|k: int|
                0 <= k < i + 1 && (#[trigger] block_category(
                    sl,
                    ov,
                    weekday_bit,
                    tv[k],
                )) is Some implies exists|j: int|
                0 <= j < blocks@.len() && blocks@[j].time_of_day@ == tv[k] by {
                if k == i {
                    assert(blocks@[blocks@.len() - 1].time_of_day@ == tv[k]);
                } else {
                    let j = choose|j: int|
                        0 <= j < prev_blocks.len() && prev_blocks[j].time_of_day@ == tv[k];
                    assert(blocks@[j] == prev_blocks[j]);
                }
            }
        }
        i = i + 1;
    }
    proof {
        assert forall|a: int, b: int|
            0 <= a < b < blocks@.len() implies text_less(
            blocks@[a].time_of_day@,
            blocks@[b].time_of_day@,
        ) by {
            assert(blocks@[a].time_of_day@ == tv[idx[a]]);
            assert(blocks@[b].time_of_day@ == tv[idx[b]]);
        }
        assert forall|t: Seq<char>|
            (#[trigger] block_category(sl, ov, weekday_bit, t)) is Some implies exists|j: int|
            0 <= j < blocks@.len() && blocks@[j].time_of_day@ == t by {
            lemma_block_is_candidate(sl, ov, weekday_bit, t);
            assert(tv.contains(t));
            let k = choose|k: int| 0 <= k < tv.len() && tv[k] == t;
            assert(block_category(sl, ov, weekday_bit, tv[k]) is Some);
        }
    }
    blocks
}


/// Slot `i` comes before slot `j` in a day's list: earlier time, or the same
/// time and listed earlier.
pub open spec fn slot_listed_before(slots: Seq<ScheduleSlotDetail>, i: int, j: int) -> bool {
    ||| text_less(slots[i].time_of_day@, slots[j].time_of_day@)
    ||| (slots[i].time_of_day@ == slots[j].time_of_day@ && i < j)
}

pub open spec fn detail_on_day(slot: ScheduleSlotDetail, day_bit: u8) -> bool {
    slot.days_of_week & day_bit != 0
}

/// `r` lists, by index, the slots that fall on the day of `day_bit`, ordered
/// by time and, for equal times, in their given order.
pub open spec fn is_day_listing(slots: Seq<ScheduleSlotDetail>, day_bit: u8, r: Seq<usize>) -> bool {
    &&& forall|k: int|
        0 <= k < r.len() ==> (#[trigger] r[k] as int) < slots.len() && detail_on_day(
            slots[r[k] as int],
            day_bit,
        )
    &&& forall|i: int|
        0 <= i < slots.len() && detail_on_day(#[trigger] slots[i], day_bit) ==> exists|k: int|
            0 <= k < r.len() && r[k] == i
    &&& forall|k: int, l: int|
        0 <= k < l < r.len() ==> slot_listed_before(slots, r[k] as int, r[l] as int)
}

/// The slots that fall on the day of `day_bit` (Monday = 1, ..., Sunday =
/// 64), by index, sorted by time with ties in their given order.
pub fn slots_on_day(slots: &[ScheduleSlotDetail], day_bit: u8) -> (r: Vec<usize>)
    ensures
        is_day_listing(slots@, day_bit, r@),
{
    let ghost sl = slots@;
    let mut r: Vec<usize> = Vec::new();
    let mut i: usize = 0;
    while i < slots.len()
        invariant
            sl == slots@,
            i <= sl.len(),
            forall|k: int|
                0 <= k < r@.len() ==> (#[trigger] r@[k] as int) < i && detail_on_day(
                    sl[r@[k] as int],
                    day_bit,
                ),
            forall|j: int|
                0 <= j < i && detail_on_day(#[trigger] sl[j], day_bit) ==> exists|k: int|
                    0 <= k < r@.len() && r@[k] == j,
            forall|k: int, l: int|
                0 <= k < l < r@.len() ==> slot_listed_before(sl, r@[k] as int, r@[l] as int),
        decreases sl.len() - i,
    {
        if slots[i].days_of_week & day_bit != 0 {
            let t = slots[i].time_of_day.as_str();
            let mut p: usize = 0;
            while p < r.len() && !text_precedes(t, slots[r[p]].time_of_day.as_str())
                invariant
                    sl == slots@,
                    i < sl.len(),
                    t@ == sl[i as int].time_of_day@,
                    p <= r@.len(),
                    forall|k: int| 0 <= k < r@.len() ==> (#[trigger] r@[k] as int) < i,
                    forall|q: int|
                        0 <= q < p ==> !text_less(t@, #[trigger] sl[r@[q] as int].time_of_day@),
                decreases r@.len() - p,
            {
                p = p + 1;
            }
            let ghost old_r = r@;
            r.insert(p, i);
            proof {
                assert(r@ =~= old_r.insert(p as int, i));
                assert forall|k: int, l: int|
                    0 <= k < l < r@.len() implies slot_listed_before(
                    sl,
                    r@[k] as int,
                    r@[l] as int,
                ) by {
                    if l < p {
                        assert(r@[k] == old_r[k] && r@[l] == old_r[l]);
                    } else if l == p {
                        let a = old_r[k] as int;
                        assert(r@[k] == old_r[k]);
                        assert(!text_less(t@, sl[a].time_of_day@));
                        lemma_text_less_total(t@, sl[a].time_of_day@);
                    } else if k < p {
                        let a = old_r[k] as int;
                        let b = old_r[l - 1] as int;
                        assert(r@[k] == old_r[k] && r@[l] == old_r[l - 1]);
                        assert(slot_listed_before(sl, old_r[k] as int, old_r[l - 1] as int));
                    } else if k == p {
                        let b = old_r[l - 1] as int;
                        let c = old_r[p as int] as int;
                        assert(r@[l] == old_r[l - 1]);
                        assert(text_less(t@, sl[c].time_of_day@));
                        if l - 1 > p {
                            assert(slot_listed_before(sl, c, b));
                            if text_less(sl[c].time_of_day@, sl[b].time_of_day@) {
                                lemma_text_less_transitive(
                                    t@,
                                    sl[c].time_of_day@,
                                    sl[b].time_of_day@,
                                );
                            }
                        }
                    } else {
                        assert(r@[k] == old_r[k - 1] && r@[l] == old_r[l - 1]);
                    }
                }
                assert forall|j: int|
                    0 <= j < i + 1 && detail_on_day(#[trigger] sl[j], day_bit) implies exists|k: int|
                    0 <= k < r@.len() && r@[k] == j by {
                    if j == i {
                        assert(r@[p as int] == i);
                    } else {
                        let k = choose|k: int| 0 <= k < old_r.len() && old_r[k] == j;
                        if k < p {
                            assert(r@[k] == j);
                        } else {
                            assert(r@[k + 1] == j);
                        }
                    }
                }
                assert forall|k: int|
                    0 <= k < r@.len() implies (#[trigger] r@[k] as int) < i + 1 && detail_on_day(
                    sl[r@[k] as int],
                    day_bit,
                ) by {
                    if k < p {
                        assert(r@[k] == old_r[k]);
                    } else if k > p {
                        assert(r@[k] == old_r[k - 1]);
                    }
                }
            }
        }
        i = i + 1;
    }
    r
}


pub open spec fn block_times(r: Seq<TimelineBlock>) -> Seq<Seq<char>> {
    r.map_values(|b: TimelineBlock| b.time_of_day@)
}

/// Two strictly sorted lists of texts that hold the same texts are the same list.
proof fn lemma_sorted_same_members_equal(a: Seq<Seq<char>>, b: Seq<Seq<char>>)
    requires
        strictly_sorted(a),
        strictly_sorted(b),
        forall|x: Seq<char>| a.contains(x) <==> b.contains(x),
    ensures
        a == b,
    decreases a.len(),
{
    if a.len() == 0 {
        if b.len() > 0 {
            assert(b.contains(b[0]));
        }
        assert(a =~= b);
    } else {
        assert(a.contains(a[0]));
        assert(b.contains(a[0]));
        let j = choose|j: int| 0 <= j < b.len() && b[j] == a[0];
        assert(b.contains(b[0]));
        let i = choose|i: int| 0 <= i < a.len() && a[i] == b[0];
        if j > 0 {
            if i > 0 {
                lemma_text_less_asymmetric(a[0], a[i]);
            } else {
                lemma_text_less_irreflexive(b[0]);
            }
        }
        assert(a[0] == b[0]);
        let a1 = a.drop_first();
        let b1 = b.drop_first();
        assert forall|x: Seq<char>| a1.contains(x) <==> b1.contains(x) by {
            if a1.contains(x) {
                let k = choose|k: int| 0 <= k < a1.len() && a1[k] == x;
                assert(a[k + 1] == x);
                assert(a.contains(x));
                let m = choose|m: int| 0 <= m < b.len() && b[m] == x;
                if m == 0 {
                    lemma_text_less_irreflexive(x);
                }
                assert(b1[m - 1] == x);
            }
            if b1.contains(x) {
                let k = choose|k: int| 0 <= k < b1.len() && b1[k] == x;
                assert(b[k + 1] == x);
                assert(b.contains(x));
                let m = choose|m: int| 0 <= m < a.len() && a[m] == x;
                if m == 0 {
                    lemma_text_less_irreflexive(x);
                }
                assert(a1[m - 1] == x);
            }
        }
        lemma_sorted_same_members_equal(a1, b1);
        assert(a =~= seq![a[0]] + a1);
        assert(b =~= seq![b[0]] + b1);
    }
}

/// The timeline is determined by the slots, the overrides and the weekday:
/// two timelines that both meet `is_resolved_timeline` agree block for block.
pub proof fn lemma_timeline_is_determined(
    slots: Seq<ScheduleSlot>,
    ovs: Seq<ScheduleOverride>,
    bit: u32,
    r1: Seq<TimelineBlock>,
    r2: Seq<TimelineBlock>,
)
    requires
        is_resolved_timeline(slots, ovs, bit, r1),
        is_resolved_timeline(slots, ovs, bit, r2),
    ensures
        r1.len() == r2.len(),
        forall|i: int|
            0 <= i < r1.len() ==> r1[i].time_of_day@ == r2[i].time_of_day@ && r1[i].category_id
                == r2[i].category_id,
{
    let a = block_times(r1);
    let b = block_times(r2);
    assert forall|x: Seq<char>| a.contains(x) <==> b.contains(x) by {
        if a.contains(x) {
            let k = choose|k: int| 0 <= k < a.len() && a[k] == x;
            assert(block_category(slots, ovs, bit, r1[k].time_of_day@) == Some(r1[k].category_id));
            let m = choose|m: int| 0 <= m < r2.len() && r2[m].time_of_day@ == x;
            assert(b[m] == x);
        }
        if b.contains(x) {
            let k = choose|k: int| 0 <= k < b.len() && b[k] == x;
            assert(block_category(slots, ovs, bit, r2[k].time_of_day@) == Some(r2[k].category_id));
            let m = choose|m: int| 0 <= m < r1.len() && r1[m].time_of_day@ == x;
            assert(a[m] == x);
        }
    }
    lemma_sorted_same_members_equal(a, b);
    assert forall|i: int| 0 <= i < r1.len() implies r1[i].time_of_day@ == r2[i].time_of_day@
        && r1[i].category_id == r2[i].category_id by {
        assert(a[i] == b[i]);
        assert(block_category(slots, ovs, bit, r1[i].time_of_day@) == Some(r1[i].category_id));
        assert(block_category(slots, ovs, bit, r2[i].time_of_day@) == Some(r2[i].category_id));
    }
}

/// An override with a category puts that category at its time, whatever the
/// weekly slots say.
pub proof fn lemma_override_takes_precedence(
    slots: Seq<ScheduleSlot>,
    ovs: Seq<ScheduleOverride>,
    bit: u32,
    r: Seq<TimelineBlock>,
    k: int,
    c: u32,
)
    requires
        is_resolved_timeline(slots, ovs, bit, r),
        first_override_at(ovs, ovs[k].time_of_day@, k),
        ovs[k].category_id == Some(c),
    ensures
        exists|i: int| 0 <= i < r.len() && r[i].time_of_day@ == ovs[k].time_of_day@ && r[i].category_id == c,
{
    let t = ovs[k].time_of_day@;
    let m = choose|m: int| first_override_at(ovs, t, m);
    if m < k {
        assert(ovs[m].time_of_day@ == t);
    } else if m > k {
        assert(ovs[k].time_of_day@ == t);
    }
    assert(block_category(slots, ovs, bit, t) == Some(c));
    let i = choose|i: int| 0 <= i < r.len() && r[i].time_of_day@ == t;
    assert(block_category(slots, ovs, bit, r[i].time_of_day@) == Some(r[i].category_id));
}

/// A rest override (no category) leaves its time out of the timeline, even
/// where a weekly slot is active at that time.
pub proof fn lemma_rest_override_clears(
    slots: Seq<ScheduleSlot>,
    ovs: Seq<ScheduleOverride>,
    bit: u32,
    r: Seq<TimelineBlock>,
    k: int,
)
    requires
        is_resolved_timeline(slots, ovs, bit, r),
        first_override_at(ovs, ovs[k].time_of_day@, k),
        ovs[k].category_id is None,
    ensures
        forall|i: int| 0 <= i < r.len() ==> r[i].time_of_day@ != ovs[k].time_of_day@,
{
    let t = ovs[k].time_of_day@;
    let m = choose|m: int| first_override_at(ovs, t, m);
    if m < k {
        assert(ovs[m].time_of_day@ == t);
    } else if m > k {
        assert(ovs[k].time_of_day@ == t);
    }
    assert(block_category(slots, ovs, bit, t) is None);
    assert forall|i: int| 0 <= i < r.len() implies r[i].time_of_day@ != t by {
        assert(block_category(slots, ovs, bit, r[i].time_of_day@) == Some(r[i].category_id));
    }
}

/// Without an override at its time, the first slot active on the day at a
/// time gives the block of that time.
pub proof fn lemma_active_slot_scheduled(
    slots: Seq<ScheduleSlot>,
    ovs: Seq<ScheduleOverride>,
    bit: u32,
    r: Seq<TimelineBlock>,
    k: int,
)
    requires
        is_resolved_timeline(slots, ovs, bit, r),
        first_active_slot_at(slots, bit, slots[k].time_of_day@, k),
        forall|j: int| 0 <= j < ovs.len() ==> ovs[j].time_of_day@ != slots[k].time_of_day@,
    ensures
        exists|i: int|
            0 <= i < r.len() && r[i].time_of_day@ == slots[k].time_of_day@ && r[i].category_id
                == slots[k].category_id,
{
    let t = slots[k].time_of_day@;
    if exists|m: int| first_override_at(ovs, t, m) {
        let m = choose|m: int| first_override_at(ovs, t, m);
        assert(ovs[m].time_of_day@ == t);
    }
    let m = choose|m: int| first_active_slot_at(slots, bit, t, m);
    if m < k {
        assert(slot_active(slots[m], bit) && slots[m].time_of_day@ == t);
    } else if m > k {
        assert(slot_active(slots[k], bit) && slots[k].time_of_day@ == t);
    }
    assert(block_category(slots, ovs, bit, t) == Some(slots[k].category_id));
    let i = choose|i: int| 0 <= i < r.len() && r[i].time_of_day@ == t;
    assert(block_category(slots, ovs, bit, r[i].time_of_day@) == Some(r[i].category_id));
}

/// A time named by no override and by no slot active on the day has no block.
pub proof fn lemma_unscheduled_time_absent(
    slots: Seq<ScheduleSlot>,
    ovs: Seq<ScheduleOverride>,
    bit: u32,
    r: Seq<TimelineBlock>,
    t: Seq<char>,
)
    requires
        is_resolved_timeline(slots, ovs, bit, r),
        !is_candidate_time(slots, ovs, bit, t),
    ensures
        forall|i: int| 0 <= i < r.len() ==> r[i].time_of_day@ != t,
{
    assert forall|i: int| 0 <= i < r.len() implies r[i].time_of_day@ != t by {
        assert(block_category(slots, ovs, bit, r[i].time_of_day@) == Some(r[i].category_id));
        if r[i].time_of_day@ == t {
            lemma_block_is_candidate(slots, ovs, bit, t);
        }
    }
}

} // verus!
