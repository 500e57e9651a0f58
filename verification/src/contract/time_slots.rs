//! Time slots in the engine, which takes no slot that overlaps another
//! of its owner and type.

use vstd::prelude::*;
use crate::context::Context;
use crate::contract::{engine_wf, not_owner, Contract, EngineView};
use crate::errors::{missing_error, operation_error, time_slot_error_view, ContractError, ErrorView};
use crate::models::time_slot::{
    fresh_slot, lemma_overlap_symmetric, slot_creation_verdict, slot_duration, slot_verdict,
    slots_overlap, valid_minutes, RecurrencePattern, RecurrenceView, SlotType, TimeSlot,
    TimeSlotError, TimeSlotId, TimeSlotTimingError, TimeSlotValidationError, TimeSlotView,
};
use crate::models::traits::Ownable;
use crate::registry::{
    lemma_entity_id_made_for, lemma_kept_after_unset, locate, owned_entities, owned_views, records,
    register, rewrite, table_set, table_unset, unregister, view_of, views,
};
use crate::response::{fails_with, names, Response, TimeSlotActionResponse, TimeSlotListResponse};
use crate::store::{index_added, index_removed};
use crate::text::{entity_id, same_text};

verus! {

/// The error for a time slot that is not there.
pub open spec fn time_slot_missing(id: Seq<char>) -> ErrorView {
    missing_error("TimeSlot"@, "Time slot "@, id, " not found"@)
}

/// Whether a slot lies in the timeframe from `start` to `end`, taken as
/// plain minutes of one day, and is of the type asked for, if one is.
pub open spec fn in_timeframe(
    slot: TimeSlotView,
    start: u32,
    end: u32,
    slot_type: Option<SlotType>,
) -> bool {
    &&& slot.start_minutes < end
    &&& slot.end_minutes > start
    &&& (slot_type matches Some(wanted) ==> slot.slot_type == wanted)
}

/// The slots that the index holds for `owner` and that lie in a timeframe.
pub open spec fn slots_in_timeframe(
    v: EngineView,
    owner: Seq<char>,
    start: u32,
    end: u32,
    slot_type: Option<SlotType>,
) -> Seq<TimeSlotView> {
    owned_views(v.time_slots, v.time_slots_per_owner, owner).filter(
        |slot: TimeSlotView| in_timeframe(slot, start, end, slot_type),
    )
}

/// Whether a stored slot stands in the way of `slot`: another slot that
/// overlaps it, which only a slot of its type can.
pub open spec fn conflicts(existing: TimeSlotView, slot: TimeSlotView) -> bool {
    &&& existing.id != slot.id
    &&& slots_overlap(existing, slot)
}

/// The error for a time slot whose identifier is taken.
pub open spec fn time_slot_exists(id: Seq<char>) -> ErrorView {
    operation_error("Time slot already exists: "@, id)
}

/// The place in `stored` of the first slot at or after `from` that stands
/// in the way of `slot`, if there is one.
pub open spec fn first_conflict(stored: Seq<TimeSlotView>, slot: TimeSlotView, from: int) -> Option<
    int,
>
    decreases stored.len() - from,
{
    if from < 0 || from >= stored.len() {
        None
    } else if conflicts(stored[from], slot) {
        Some(from)
    } else {
        first_conflict(stored, slot, from + 1)
    }
}

/// No slot from `from` on stands in the way exactly where no conflict is
/// found.
pub proof fn lemma_first_conflict(stored: Seq<TimeSlotView>, slot: TimeSlotView, from: int)
    requires
        0 <= from <= stored.len(),
    ensures
        match first_conflict(stored, slot, from) {
            Some(i) => from <= i < stored.len() && conflicts(stored[i], slot),
            None => forall|i: int| from <= i < stored.len() ==> !conflicts(#[trigger] stored[i], slot),
        },
    decreases stored.len() - from,
{
    if from < stored.len() && !conflicts(stored[from], slot) {
        lemma_first_conflict(stored, slot, from + 1);
    }
}

/// The slot that `add_time_slot` makes of its arguments.
pub open spec fn new_slot(
    start: u32,
    end: u32,
    slot_type: SlotType,
    recurrence: RecurrenceView,
    ctx: Context,
) -> TimeSlotView {
    TimeSlotView { slot_type, ..fresh_slot(start, end, recurrence, ctx.caller@, ctx.now) }
}

/// The slots of the caller as the index lists them.
pub open spec fn caller_slots(before: EngineView, owner: Seq<char>) -> Seq<TimeSlotView> {
    owned_views(before.time_slots, before.time_slots_per_owner, owner)
}

/// Why `add_time_slot` fails, if it does: the new slot breaks a rule, its
/// identifier is taken, or a slot of the caller stands in its way; the
/// first such slot in the order of the index is named.
pub open spec fn add_time_slot_error(
    before: EngineView,
    start: u32,
    end: u32,
    slot_type: SlotType,
    recurrence: RecurrenceView,
    ctx: Context,
) -> Option<ErrorView> {
    match slot_creation_verdict(start, end, recurrence, ctx.caller@, ctx) {
        Err(e) => Some(time_slot_error_view(e)),
        Ok(_) => {
            let slot = new_slot(start, end, slot_type, recurrence, ctx);
            let stored = caller_slots(before, ctx.caller@);
            if before.time_slots.contains_key(slot.id) {
                Some(time_slot_exists(slot.id))
            } else {
                match first_conflict(stored, slot, 0) {
                    Some(i) => Some(
                        operation_error("Time slot overlaps with existing slot "@, stored[i].id),
                    ),
                    None => None,
                }
            }
        },
    }
}

/// What `add_time_slot` makes of the engine: the new slot stands under
/// its identifier, after the slots that were there, and is entered for
/// the caller.
pub open spec fn add_time_slot_effect(
    before: EngineView,
    after: EngineView,
    start: u32,
    end: u32,
    slot_type: SlotType,
    recurrence: RecurrenceView,
    ctx: Context,
) -> bool {
    let slot = new_slot(start, end, slot_type, recurrence, ctx);
    &&& !before.time_slots.contains_key(slot.id)
    &&& table_set(before.time_slots, after.time_slots, slot.id, slot)
    &&& index_added(before.time_slots_per_owner, after.time_slots_per_owner, ctx.caller@, slot.id)
    &&& after == (EngineView {
        time_slots: after.time_slots,
        time_slots_per_owner: after.time_slots_per_owner,
        ..before
    })
}

/// The slot under `id` with new minutes and a new pattern.
pub open spec fn edited_slot(
    before: EngineView,
    id: Seq<char>,
    start: u32,
    end: u32,
    recurrence: RecurrenceView,
) -> TimeSlotView {
    TimeSlotView {
        start_minutes: start,
        end_minutes: end,
        duration: Some(slot_duration(start, end) as u32),
        recurrence,
        ..view_of(before.time_slots, id)
    }
}

/// The error for minutes that cannot bound a slot.
pub open spec fn invalid_minutes(start: u32, end: u32) -> ErrorView {
    time_slot_error_view(
        TimeSlotError::Validation(
            TimeSlotValidationError::Timing {
                reason: TimeSlotTimingError::InvalidTimeOfDay,
                start_minutes: start,
                end_minutes: end,
            },
        ),
    )
}

/// Why `update_time_slot` fails, if it does: the slot is not there, the
/// caller does not own it, the minutes cannot bound a slot, the edited
/// slot breaks a rule, or another slot of the owner overlaps it.
pub open spec fn update_time_slot_error(
    before: EngineView,
    id: Seq<char>,
    start: u32,
    end: u32,
    recurrence: RecurrenceView,
    ctx: Context,
) -> Option<ErrorView> {
    if !before.time_slots.contains_key(id) {
        Some(time_slot_missing(id))
    } else if view_of(before.time_slots, id).owner_id != ctx.caller@ {
        Some(not_owner())
    } else if !valid_minutes(start, end) {
        Some(invalid_minutes(start, end))
    } else {
        let slot = edited_slot(before, id, start, end, recurrence);
        match slot_verdict(slot, ctx) {
            Err(e) => Some(time_slot_error_view(e)),
            Ok(_) => {
                let stored = caller_slots(before, ctx.caller@);
                match first_conflict(stored, slot, 0) {
                    Some(i) => Some(
                        operation_error("Would overlap with existing time slot "@, stored[i].id),
                    ),
                    None => None,
                }
            },
        }
    }
}

/// What `update_time_slot` makes of the engine: the edited slot stands in
/// the place of the old one.
pub open spec fn update_time_slot_effect(
    before: EngineView,
    after: EngineView,
    id: Seq<char>,
    start: u32,
    end: u32,
    recurrence: RecurrenceView,
) -> bool {
    &&& table_set(
        before.time_slots,
        after.time_slots,
        id,
        edited_slot(before, id, start, end, recurrence),
    )
    &&& after == (EngineView { time_slots: after.time_slots, ..before })
}

/// Why `delete_time_slot` fails, if it does.
pub open spec fn delete_time_slot_error(before: EngineView, id: Seq<char>, ctx: Context) -> Option<
    ErrorView,
> {
    if !before.time_slots.contains_key(id) {
        Some(time_slot_missing(id))
    } else if view_of(before.time_slots, id).owner_id != ctx.caller@ {
        Some(not_owner())
    } else {
        None
    }
}

/// What `delete_time_slot` makes of the engine: the slot is gone from the
/// table and from the index of the caller.
pub open spec fn delete_time_slot_effect(
    before: EngineView,
    after: EngineView,
    id: Seq<char>,
    ctx: Context,
) -> bool {
    &&& table_unset(before.time_slots, after.time_slots, id)
    &&& index_removed(before.time_slots_per_owner, after.time_slots_per_owner, ctx.caller@, id)
    &&& after == (EngineView {
        time_slots: after.time_slots,
        time_slots_per_owner: after.time_slots_per_owner,
        ..before
    })
}

/// No two slots of one owner overlap.
pub open spec fn slots_apart(v: EngineView) -> bool {
    forall|a: Seq<char>, b: Seq<char>|
        #![trigger v.time_slots.value_of(a), v.time_slots.value_of(b)]
        v.time_slots.contains_key(a) && v.time_slots.contains_key(b) && a != b && view_of(
            v.time_slots,
            a,
        ).owner_id == view_of(v.time_slots, b).owner_id ==> !slots_overlap(
            view_of(v.time_slots, a),
            view_of(v.time_slots, b),
        )
}

/// A slot that finds no conflict overlaps no other slot of its owner.
pub proof fn lemma_no_conflict_no_overlap(v: EngineView, slot: TimeSlotView, k: Seq<char>)
    requires
        engine_wf(v),
        first_conflict(caller_slots(v, slot.owner_id), slot, 0) is None,
        v.time_slots.contains_key(k),
        k != slot.id,
        view_of(v.time_slots, k).owner_id == slot.owner_id,
    ensures
        !slots_overlap(view_of(v.time_slots, k), slot),
        !slots_overlap(slot, view_of(v.time_slots, k)),
{
    let stored = caller_slots(v, slot.owner_id);
    let existing = view_of(v.time_slots, k);
    lemma_first_conflict(stored, slot, 0);
    lemma_overlap_symmetric(existing, slot);
    let place = v.time_slots.position(k);
    assert(0 <= place < v.time_slots.keys().len() && v.time_slots.keys()[place] == k);
    let entry = records(v.time_slots.values())[place];
    assert(entry.id == k && entry.owner == slot.owner_id);
    let ids = v.time_slots_per_owner.ids_of(slot.owner_id);
    assert(ids.contains(k));
    let j = choose|j: int| 0 <= j < ids.len() && ids[j] == k;
    assert(stored[j] == existing);
    assert(!conflicts(stored[j], slot));
    assert(existing.id == k);
}

/// Two slots of one owner do not overlap after `slot` is written, if no
/// two did before and `slot` found no conflict.
pub proof fn lemma_pair_apart(
    before: EngineView,
    after: EngineView,
    slot: TimeSlotView,
    a: Seq<char>,
    b: Seq<char>,
)
    requires
        engine_wf(before),
        slots_apart(before),
        table_set(before.time_slots, after.time_slots, slot.id, slot),
        first_conflict(caller_slots(before, slot.owner_id), slot, 0) is None,
        after.time_slots.contains_key(a),
        after.time_slots.contains_key(b),
        a != b,
        view_of(after.time_slots, a).owner_id == view_of(after.time_slots, b).owner_id,
    ensures
        !slots_overlap(view_of(after.time_slots, a), view_of(after.time_slots, b)),
{
    if a == slot.id {
        assert(before.time_slots.contains_key(b));
        assert(view_of(after.time_slots, b) == view_of(before.time_slots, b));
        lemma_no_conflict_no_overlap(before, slot, b);
    } else if b == slot.id {
        assert(before.time_slots.contains_key(a));
        assert(view_of(after.time_slots, a) == view_of(before.time_slots, a));
        lemma_no_conflict_no_overlap(before, slot, a);
    } else {
        assert(before.time_slots.contains_key(a));
        assert(before.time_slots.contains_key(b));
        assert(view_of(after.time_slots, a) == view_of(before.time_slots, a));
        assert(view_of(after.time_slots, b) == view_of(before.time_slots, b));
    }
}

/// After a time slot is added, no two slots of one owner overlap, if none
/// did before.
pub proof fn lemma_add_keeps_slots_apart(
    before: EngineView,
    after: EngineView,
    start: u32,
    end: u32,
    slot_type: SlotType,
    recurrence: RecurrenceView,
    ctx: Context,
)
    requires
        engine_wf(before),
        slots_apart(before),
        add_time_slot_error(before, start, end, slot_type, recurrence, ctx) is None,
        add_time_slot_effect(before, after, start, end, slot_type, recurrence, ctx),
    ensures
        slots_apart(after),
{
    let slot = new_slot(start, end, slot_type, recurrence, ctx);
    assert forall|a: Seq<char>, b: Seq<char>|
        #![trigger after.time_slots.value_of(a), after.time_slots.value_of(b)]
        after.time_slots.contains_key(a) && after.time_slots.contains_key(b) && a != b && view_of(
            after.time_slots,
            a,
        ).owner_id == view_of(after.time_slots, b).owner_id implies !slots_overlap(
        view_of(after.time_slots, a),
        view_of(after.time_slots, b),
    ) by {
        lemma_pair_apart(before, after, slot, a, b);
    }
}

/// After a time slot is updated, no two slots of one owner overlap, if
/// none did before.
pub proof fn lemma_update_keeps_slots_apart(
    before: EngineView,
    after: EngineView,
    id: Seq<char>,
    start: u32,
    end: u32,
    recurrence: RecurrenceView,
    ctx: Context,
)
    requires
        engine_wf(before),
        slots_apart(before),
        update_time_slot_error(before, id, start, end, recurrence, ctx) is None,
        update_time_slot_effect(before, after, id, start, end, recurrence),
    ensures
        slots_apart(after),
{
    let slot = edited_slot(before, id, start, end, recurrence);
    let place = before.time_slots.position(id);
    assert(0 <= place < before.time_slots.keys().len() && before.time_slots.keys()[place] == id);
    let entry = records(before.time_slots.values())[place];
    assert(entry.id == id);
    assert(slot.id == id);
    assert forall|a: Seq<char>, b: Seq<char>|
        #![trigger after.time_slots.value_of(a), after.time_slots.value_of(b)]
        after.time_slots.contains_key(a) && after.time_slots.contains_key(b) && a != b && view_of(
            after.time_slots,
            a,
        ).owner_id == view_of(after.time_slots, b).owner_id implies !slots_overlap(
        view_of(after.time_slots, a),
        view_of(after.time_slots, b),
    ) by {
        lemma_pair_apart(before, after, slot, a, b);
    }
}

/// After a time slot is deleted, no two slots of one owner overlap, if
/// none did before.
pub proof fn lemma_delete_keeps_slots_apart(
    before: EngineView,
    after: EngineView,
    id: Seq<char>,
    ctx: Context,
)
    requires
        engine_wf(before),
        slots_apart(before),
        delete_time_slot_error(before, id, ctx) is None,
        delete_time_slot_effect(before, after, id, ctx),
    ensures
        slots_apart(after),
{
    assert forall|a: Seq<char>, b: Seq<char>|
        #![trigger after.time_slots.value_of(a), after.time_slots.value_of(b)]
        after.time_slots.contains_key(a) && after.time_slots.contains_key(b) && a != b && view_of(
            after.time_slots,
            a,
        ).owner_id == view_of(after.time_slots, b).owner_id implies !slots_overlap(
        view_of(after.time_slots, a),
        view_of(after.time_slots, b),
    ) by {
        lemma_kept_after_unset(before.time_slots, after.time_slots, id, a);
        lemma_kept_after_unset(before.time_slots, after.time_slots, id, b);
    }
}

/// The slots of a list that lie in a timeframe.
pub fn select_slots(all: &Vec<TimeSlot>, start: u32, end: u32, slot_type: Option<SlotType>) -> (chosen:
    Vec<TimeSlot>)
    ensures
        views(chosen@) == views(all@).filter(
            |slot: TimeSlotView| in_timeframe(slot, start, end, slot_type),
        ),
{
    let ghost wanted = |slot: TimeSlotView| in_timeframe(slot, start, end, slot_type);
    let mut chosen: Vec<TimeSlot> = Vec::new();
    let mut k: usize = 0;
    proof {
        reveal(Seq::filter);
        assert(views(all@).take(0) =~= Seq::<TimeSlotView>::empty());
        assert(views(chosen@) =~= Seq::<TimeSlotView>::empty());
    }
    while k < all.len()
        invariant
            k <= all.len(),
            wanted == (|slot: TimeSlotView| in_timeframe(slot, start, end, slot_type)),
            views(chosen@) == views(all@).take(k as int).filter(wanted),
        decreases all.len() - k,
    {
        proof {
            reveal(Seq::filter);
            assert(views(all@).take(k + 1).drop_last() =~= views(all@).take(k as int));
            assert(views(all@).take(k + 1).last() == all@[k as int]@);
        }
        let slot = &all[k];
        let of_type = match slot_type {
            Some(wanted_type) => slot.slot_type == wanted_type,
            None => true,
        };
        if slot.start_minutes < end && slot.end_minutes > start && of_type {
            let copy = slot.clone();
            let ghost earlier = chosen@;
            chosen.push(copy);
            assert(views(chosen@) =~= views(earlier).push(all@[k as int]@));
        }
        k += 1;
    }
    assert(views(all@).take(k as int) =~= views(all@));
    chosen
}

/// The place in `stored` of the first slot that stands in the way of
/// `slot`, if there is one.
pub fn find_conflict(stored: &Vec<TimeSlot>, slot: &TimeSlot) -> (place: Option<usize>)
    ensures
        match place {
            Some(i) => first_conflict(views(stored@), slot@, 0) == Some(i as int) && i
                < stored@.len(),
            None => first_conflict(views(stored@), slot@, 0) is None,
        },
{
    let mut i: usize = 0;
    while i < stored.len()
        invariant
            i <= stored.len(),
            first_conflict(views(stored@), slot@, 0) == first_conflict(
                views(stored@),
                slot@,
                i as int,
            ),
        decreases stored.len() - i,
    {
        let existing = &stored[i];
        assert(views(stored@)[i as int] == existing@);
        if !same_text(&existing.id, &slot.id) && existing.overlaps_with(slot) {
            return Some(i);
        }
        i += 1;
    }
    None
}

impl Contract {
    /// The time slots of `owner_id`, in the order in which they were made, which a
    /// deletion leaves as it is for the rest.
    pub fn get_time_slots_by_owner(&self, owner_id: String) -> (r: TimeSlotListResponse)
        requires
            self.wf(),
        ensures
            if !self@.time_slots_per_owner.has_owner(owner_id@) || caller_slots(
                self@,
                owner_id@,
            ).len() == 0 {
                fails_with(
                    r,
                    missing_error("TimeSlot"@, "No time slots found for "@, owner_id@, ""@),
                )
            } else {
                r matches Response::Success(list) && views(list@) == caller_slots(self@, owner_id@)
            },
    {
        let all = match owned_entities(&self.time_slots, &self.time_slots_per_owner, &owner_id) {
            Some(all) => all,
            None => {
                return Response::Error(
                    ContractError::missing(
                        "TimeSlot",
                        "No time slots found for ",
                        owner_id.as_str(),
                        "",
                    ),
                );
            },
        };
        assert(views(all@) =~= caller_slots(self@, owner_id@));
        if all.len() == 0 {
            return Response::Error(
                ContractError::missing("TimeSlot", "No time slots found for ", owner_id.as_str(), ""),
            );
        }
        Response::Success(all)
    }

    /// The time slots of `owner_id` that lie in the timeframe from
    /// `start_minutes` to `end_minutes`, taken as plain minutes of one
    /// day, and are of the type asked for; in the order in which they
    /// were made, which a deletion leaves as it is for the rest.
    pub fn get_time_slots_by_timeframe(
        &self,
        owner_id: String,
        start_minutes: u32,
        end_minutes: u32,
        slot_type: Option<SlotType>,
    ) -> (r: TimeSlotListResponse)
        requires
            self.wf(),
        ensures
            if !self@.time_slots_per_owner.has_owner(owner_id@) {
                fails_with(
                    r,
                    missing_error("TimeSlot"@, "No time slots found for "@, owner_id@, ""@),
                )
            } else if slots_in_timeframe(
                self@,
                owner_id@,
                start_minutes,
                end_minutes,
                slot_type,
            ).len() == 0 {
                fails_with(
                    r,
                    missing_error(
                        "TimeSlot"@,
                        "No time slots found in timeframe for "@,
                        owner_id@,
                        ""@,
                    ),
                )
            } else {
                r matches Response::Success(list) && views(list@) == slots_in_timeframe(
                    self@,
                    owner_id@,
                    start_minutes,
                    end_minutes,
                    slot_type,
                )
            },
    {
        let all = match owned_entities(&self.time_slots, &self.time_slots_per_owner, &owner_id) {
            Some(all) => all,
            None => {
                return Response::Error(
                    ContractError::missing(
                        "TimeSlot",
                        "No time slots found for ",
                        owner_id.as_str(),
                        "",
                    ),
                );
            },
        };
        assert(views(all@) =~= caller_slots(self@, owner_id@));
        let slots = select_slots(&all, start_minutes, end_minutes, slot_type);
        if slots.len() == 0 {
            return Response::Error(
                ContractError::missing(
                    "TimeSlot",
                    "No time slots found in timeframe for ",
                    owner_id.as_str(),
                    "",
                ),
            );
        }
        Response::Success(slots)
    }

    /// Makes a time slot for the caller, unless its identifier is taken or
    /// a slot of the caller overlaps it. Slots that did not overlap before
    /// do not overlap afterwards.
    pub fn add_time_slot(
        &mut self,
        start_minutes: u32,
        end_minutes: u32,
        slot_type: SlotType,
        recurrence: RecurrencePattern,
        ctx: &Context,
    ) -> (r: TimeSlotActionResponse)
        requires
            old(self).wf(),
        ensures
            final(self).wf(),
            match add_time_slot_error(
                old(self)@,
                start_minutes,
                end_minutes,
                slot_type,
                recurrence@,
                *ctx,
            ) {
                Some(e) => fails_with(r, e) && *final(self) == *old(self),
                None => names(r, entity_id("time_slot"@, ctx.caller@, ctx.now))
                    && add_time_slot_effect(
                    old(self)@,
                    final(self)@,
                    start_minutes,
                    end_minutes,
                    slot_type,
                    recurrence@,
                    *ctx,
                ),
            },
            slots_apart(old(self)@) ==> slots_apart(final(self)@),
    {
        let ghost pattern = recurrence@;
        let mut time_slot = match TimeSlot::new(
            start_minutes,
            end_minutes,
            recurrence,
            ctx.caller.clone(),
            ctx,
        ) {
            Ok(slot) => slot,
            Err(e) => {
                return Response::Error(ContractError::from_time_slot(e));
            },
        };
        time_slot.slot_type = slot_type;
        let slot_id = time_slot.id.clone();
        if self.time_slots.find(&slot_id).is_some() {
            return Response::Error(
                ContractError::operation("Time slot already exists: ", slot_id.as_str()),
            );
        }
        match owned_entities(&self.time_slots, &self.time_slots_per_owner, &ctx.caller) {
            Some(stored) => {
                assert(views(stored@) =~= caller_slots(self@, ctx.caller@));
                match find_conflict(&stored, &time_slot) {
                    Some(i) => {
                        return Response::Error(
                            ContractError::operation(
                                "Time slot overlaps with existing slot ",
                                stored[i].id.as_str(),
                            ),
                        );
                    },
                    None => {},
                }
            },
            None => {
                proof {
                    self.time_slots_per_owner.lemma_unknown_owner(ctx.caller@);
                    assert(caller_slots(self@, ctx.caller@) =~= Seq::<TimeSlotView>::empty());
                }
            },
        }
        proof {
            lemma_entity_id_made_for("time_slot"@, time_slot.owner_id@, ctx.now);
        }
        register(&mut self.time_slots, &mut self.time_slots_per_owner, time_slot);
        proof {
            if slots_apart(old(self)@) {
                lemma_add_keeps_slots_apart(
                    old(self)@,
                    self@,
                    start_minutes,
                    end_minutes,
                    slot_type,
                    pattern,
                    *ctx,
                );
            }
        }
        Response::Success(slot_id)
    }

    /// Gives a time slot of the caller new minutes and a new pattern,
    /// unless another slot of the caller overlaps it. Slots that did not
    /// overlap before do not overlap afterwards.
    pub fn update_time_slot(
        &mut self,
        slot_id: TimeSlotId,
        start_minutes: u32,
        end_minutes: u32,
        recurrence: RecurrencePattern,
        ctx: &Context,
    ) -> (r: TimeSlotActionResponse)
        requires
            old(self).wf(),
        ensures
            final(self).wf(),
            match update_time_slot_error(
                old(self)@,
                slot_id@,
                start_minutes,
                end_minutes,
                recurrence@,
                *ctx,
            ) {
                Some(e) => fails_with(r, e) && *final(self) == *old(self),
                None => names(r, slot_id@) && update_time_slot_effect(
                    old(self)@,
                    final(self)@,
                    slot_id@,
                    start_minutes,
                    end_minutes,
                    recurrence@,
                ),
            },
            slots_apart(old(self)@) ==> slots_apart(final(self)@),
    {
        let ghost pattern = recurrence@;
        let place = match locate(&self.time_slots, &self.time_slots_per_owner, &slot_id) {
            Some(place) => place,
            None => {
                return Response::Error(
                    ContractError::missing("TimeSlot", "Time slot ", slot_id.as_str(), " not found"),
                );
            },
        };
        let mut slot = self.time_slots.value_at(place).clone();
        if let Err(e) = slot.validate_ownership(ctx) {
            return Response::Error(ContractError::AccessError(e));
        }
        if start_minutes >= 1440 || end_minutes >= 1440 || start_minutes == end_minutes {
            return Response::Error(
                ContractError::from_time_slot(
                    TimeSlotError::Validation(
                        TimeSlotValidationError::Timing {
                            reason: TimeSlotTimingError::InvalidTimeOfDay,
                            start_minutes,
                            end_minutes,
                        },
                    ),
                ),
            );
        }
        slot.start_minutes = start_minutes;
        slot.end_minutes = end_minutes;
        slot.duration = Some((end_minutes + 1440 - start_minutes) % 1440);
        slot.recurrence = recurrence;
        if let Err(e) = slot.validate(ctx) {
            return Response::Error(ContractError::from_time_slot(e));
        }
        match owned_entities(&self.time_slots, &self.time_slots_per_owner, slot.get_owner_id()) {
            Some(stored) => {
                assert(views(stored@) =~= caller_slots(self@, ctx.caller@));
                match find_conflict(&stored, &slot) {
                    Some(i) => {
                        return Response::Error(
                            ContractError::operation(
                                "Would overlap with existing time slot ",
                                stored[i].id.as_str(),
                            ),
                        );
                    },
                    None => {},
                }
            },
            None => {
                assert(self.time_slots_per_owner.has_owner(slot.owner_id@));
                assert(false);
            },
        }
        rewrite(&mut self.time_slots, &self.time_slots_per_owner, place, slot);
        proof {
            if slots_apart(old(self)@) {
                lemma_update_keeps_slots_apart(
                    old(self)@,
                    self@,
                    slot_id@,
                    start_minutes,
                    end_minutes,
                    pattern,
                    *ctx,
                );
            }
        }
        Response::Success(slot_id)
    }

    /// Removes a time slot of the caller.
    pub fn delete_time_slot(&mut self, slot_id: TimeSlotId, ctx: &Context) -> (r:
        TimeSlotActionResponse)
        requires
            old(self).wf(),
        ensures
            final(self).wf(),
            match delete_time_slot_error(old(self)@, slot_id@, *ctx) {
                Some(e) => fails_with(r, e) && *final(self) == *old(self),
                None => names(r, slot_id@) && delete_time_slot_effect(
                    old(self)@,
                    final(self)@,
                    slot_id@,
                    *ctx,
                ),
            },
            slots_apart(old(self)@) ==> slots_apart(final(self)@),
    {
        match self.time_slots.get(&slot_id) {
            Some(slot) => {
                if let Err(e) = slot.validate_ownership(ctx) {
                    return Response::Error(ContractError::AccessError(e));
                }
            },
            None => {
                return Response::Error(
                    ContractError::missing("TimeSlot", "Time slot ", slot_id.as_str(), " not found"),
                );
            },
        }
        let _ = unregister(&mut self.time_slots, &mut self.time_slots_per_owner, &slot_id);
        proof {
            if slots_apart(old(self)@) {
                lemma_delete_keeps_slots_apart(old(self)@, self@, slot_id@, *ctx);
            }
        }
        Response::Success(slot_id)
    }
}

} // verus!
