use vstd::prelude::*;

use crate::availability::{windows_for, AvailabilityService};
use crate::draft_entries::{entries_for, DraftEntryService};
use crate::error::AppError;
use crate::models::{Availability, Conflict, ConflictStatus, DraftEntry, TimeSlot};
use crate::scan::{find_first, lemma_find_first_prefix};
use crate::text::{
    availability_conflict_desc, availability_conflict_description, room_conflict_desc,
    room_conflict_description, teacher_conflict_desc, teacher_conflict_description,
};
use crate::time::Instant;
use crate::time_slots::{slot_by_id, TimeSlotStore};

verus! {

/// The reference week. Availability is calendar-agnostic, so a slot's
/// day-of-week is laid onto a fixed week beginning on a Sunday; day number
/// 20457 (2026-01-04) is one.
pub const REFERENCE_SUNDAY: u64 = 20457;

/// What detection asserts about one conflict record: every field except the
/// record's own identity and timestamps, which are fresh for each row.
#[verifier::ext_equal]
pub struct ConflictData {
    pub draft_timetable_id: u128,
    pub description: Seq<char>,
    pub teacher_id: Option<u128>,
    pub room_id: Option<u128>,
    pub time_slot_id: Option<u128>,
    pub status: ConflictStatus,
}

pub open spec fn data_of(c: Conflict) -> ConflictData {
    ConflictData {
        draft_timetable_id: c.draft_timetable_id,
        description: c.description@,
        teacher_id: c.teacher_id,
        room_id: c.room_id,
        time_slot_id: c.time_slot_id,
        status: c.status,
    }
}

pub open spec fn data_seq(s: Seq<Conflict>) -> Seq<ConflictData> {
    s.map_values(|c: Conflict| data_of(c))
}

/// Two entries double-book a teacher: same teacher, same slot.
pub open spec fn teacher_pair(e1: DraftEntry, e2: DraftEntry) -> bool {
    e1.teacher_id == e2.teacher_id && e1.time_slot_id == e2.time_slot_id
}

/// Two entries double-book a room: same room, same slot.
pub open spec fn room_pair(e1: DraftEntry, e2: DraftEntry) -> bool {
    e1.room_id == e2.room_id && e1.time_slot_id == e2.time_slot_id
}

pub open spec fn teacher_conflict_data(draft: u128, e1: DraftEntry, e2: DraftEntry) -> ConflictData {
    ConflictData {
        draft_timetable_id: draft,
        description: teacher_conflict_desc(e1.course_id, e2.course_id),
        teacher_id: Some(e1.teacher_id),
        room_id: None,
        time_slot_id: Some(e1.time_slot_id),
        status: ConflictStatus::Open,
    }
}

pub open spec fn room_conflict_data(draft: u128, e1: DraftEntry, e2: DraftEntry) -> ConflictData {
    ConflictData {
        draft_timetable_id: draft,
        description: room_conflict_desc(e1.course_id, e2.course_id),
        teacher_id: None,
        room_id: Some(e1.room_id),
        time_slot_id: Some(e1.time_slot_id),
        status: ConflictStatus::Open,
    }
}

pub open spec fn availability_conflict_data(draft: u128, e: DraftEntry) -> ConflictData {
    ConflictData {
        draft_timetable_id: draft,
        description: availability_conflict_desc(e.time_slot_id),
        teacher_id: Some(e.teacher_id),
        room_id: None,
        time_slot_id: Some(e.time_slot_id),
        status: ConflictStatus::Open,
    }
}

/// Teacher double-booking conflicts of entry `i` against entries `j..`.
pub open spec fn teacher_inner(draft: u128, entries: Seq<DraftEntry>, i: int, j: int) -> Seq<
    ConflictData,
>
    decreases entries.len() - j,
{
    if j < 0 || j >= entries.len() || i < 0 || i >= entries.len() {
        Seq::empty()
    } else {
        let rest = teacher_inner(draft, entries, i, j + 1);
        if teacher_pair(entries[i], entries[j]) {
            seq![teacher_conflict_data(draft, entries[i], entries[j])] + rest
        } else {
            rest
        }
    }
}

/// The teacher pass from entry `i` on: each unordered pair is examined once.
pub open spec fn teacher_from(draft: u128, entries: Seq<DraftEntry>, i: int) -> Seq<ConflictData>
    decreases entries.len() - i,
{
    if i < 0 || i >= entries.len() {
        Seq::empty()
    } else {
        teacher_inner(draft, entries, i, i + 1) + teacher_from(draft, entries, i + 1)
    }
}

pub open spec fn teacher_pass(draft: u128, entries: Seq<DraftEntry>) -> Seq<ConflictData> {
    teacher_from(draft, entries, 0)
}

/// Room double-booking conflicts of entry `i` against entries `j..`.
pub open spec fn room_inner(draft: u128, entries: Seq<DraftEntry>, i: int, j: int) -> Seq<
    ConflictData,
>
    decreases entries.len() - j,
{
    if j < 0 || j >= entries.len() || i < 0 || i >= entries.len() {
        Seq::empty()
    } else {
        let rest = room_inner(draft, entries, i, j + 1);
        if room_pair(entries[i], entries[j]) {
            seq![room_conflict_data(draft, entries[i], entries[j])] + rest
        } else {
            rest
        }
    }
}

/// The room pass from entry `i` on.
pub open spec fn room_from(draft: u128, entries: Seq<DraftEntry>, i: int) -> Seq<ConflictData>
    decreases entries.len() - i,
{
    if i < 0 || i >= entries.len() {
        Seq::empty()
    } else {
        room_inner(draft, entries, i, i + 1) + room_from(draft, entries, i + 1)
    }
}

pub open spec fn room_pass(draft: u128, entries: Seq<DraftEntry>) -> Seq<ConflictData> {
    room_from(draft, entries, 0)
}

/// The reference date a slot's weekday resolves to.
pub open spec fn slot_reference_date(slot: TimeSlot) -> int {
    REFERENCE_SUNDAY + slot.day_of_week
}

/// The window fully contains the slot's time range.
pub open spec fn window_covers(w: Availability, slot: TimeSlot) -> bool {
    w.start_time <= slot.start_time && w.end_time >= slot.end_time
}

/// Some window among `ws` fully contains the slot.
pub open spec fn covered(ws: Seq<Availability>, slot: TimeSlot) -> bool {
    exists|k: int| 0 <= k < ws.len() && window_covers(#[trigger] ws[k], slot)
}

/// What the availability pass reports for one entry: nothing if the slot is
/// unknown or covered, one conflict otherwise.
pub open spec fn availability_step(
    draft: u128,
    e: DraftEntry,
    windows: Seq<Availability>,
    slots: Seq<TimeSlot>,
) -> Seq<ConflictData> {
    match slot_by_id(slots, e.time_slot_id) {
        None => Seq::empty(),
        Some(slot) => {
            if covered(windows_for(windows, e.teacher_id, slot_reference_date(slot)), slot) {
                Seq::empty()
            } else {
                seq![availability_conflict_data(draft, e)]
            }
        },
    }
}

/// The availability pass from entry `k` on.
pub open spec fn availability_from(
    draft: u128,
    entries: Seq<DraftEntry>,
    windows: Seq<Availability>,
    slots: Seq<TimeSlot>,
    k: int,
) -> Seq<ConflictData>
    decreases entries.len() - k,
{
    if k < 0 || k >= entries.len() {
        Seq::empty()
    } else {
        availability_step(draft, entries[k], windows, slots) + availability_from(
            draft,
            entries,
            windows,
            slots,
            k + 1,
        )
    }
}

pub open spec fn availability_pass(
    draft: u128,
    entries: Seq<DraftEntry>,
    windows: Seq<Availability>,
    slots: Seq<TimeSlot>,
) -> Seq<ConflictData> {
    availability_from(draft, entries, windows, slots, 0)
}

/// Everything detection reports for one draft: the three passes, in order.
pub open spec fn detected_conflicts(
    draft: u128,
    entries: Seq<DraftEntry>,
    windows: Seq<Availability>,
    slots: Seq<TimeSlot>,
) -> Seq<ConflictData> {
    teacher_pass(draft, entries) + room_pass(draft, entries) + availability_pass(
        draft,
        entries,
        windows,
        slots,
    )
}

/// The ledger's conflicts of one draft, in insertion order.
pub open spec fn conflicts_for(s: Seq<Conflict>, draft_timetable_id: u128) -> Seq<Conflict> {
    s.filter(|c: Conflict| c.draft_timetable_id == draft_timetable_id)
}

/// An Open conflict of the draft stands somewhere in the ledger.
pub open spec fn open_conflict_exists(s: Seq<Conflict>, draft_timetable_id: u128) -> bool {
    exists|i: int|
        0 <= i < s.len() && (#[trigger] s[i]).draft_timetable_id == draft_timetable_id
            && s[i].status is Open
}

/// The lookup predicate: a conflict with the given identity.
pub open spec fn conflict_id_pred(id: u128) -> spec_fn(Conflict) -> bool {
    |c: Conflict| c.id == id
}

/// Index of the conflict with the given identity, if any.
pub open spec fn conflict_index(s: Seq<Conflict>, id: u128) -> Option<int> {
    find_first(s, conflict_id_pred(id))
}

/// A well-shaped detection result: it belongs to the draft, starts Open,
/// names the slot, and names either the teacher or the room — never both —
/// as its kind demands.
pub open spec fn conflict_shape_ok(c: ConflictData, draft: u128) -> bool {
    &&& c.draft_timetable_id == draft
    &&& c.status is Open
    &&& c.time_slot_id is Some
    &&& (c.teacher_id is Some && c.room_id is None) || (c.room_id is Some && c.teacher_id
        is None)
}

pub open spec fn all_shape_ok(s: Seq<ConflictData>, draft: u128) -> bool {
    forall|x: int| 0 <= x < s.len() ==> conflict_shape_ok(#[trigger] s[x], draft)
}

proof fn lemma_all_shape_add(a: Seq<ConflictData>, b: Seq<ConflictData>, draft: u128)
    requires
        all_shape_ok(a, draft),
        all_shape_ok(b, draft),
    ensures
        all_shape_ok(a + b, draft),
{
    assert forall|x: int| 0 <= x < (a + b).len() implies conflict_shape_ok(
        #[trigger] (a + b)[x],
        draft,
    ) by {
        if x < a.len() {
            assert((a + b)[x] == a[x]);
        } else {
            assert((a + b)[x] == b[x - a.len()]);
        }
    }
}

proof fn lemma_teacher_inner_shape(draft: u128, entries: Seq<DraftEntry>, i: int, j: int)
    ensures
        all_shape_ok(teacher_inner(draft, entries, i, j), draft),
    decreases entries.len() - j,
{
    if j < 0 || j >= entries.len() || i < 0 || i >= entries.len() {
    } else {
        lemma_teacher_inner_shape(draft, entries, i, j + 1);
        if teacher_pair(entries[i], entries[j]) {
            let c = teacher_conflict_data(draft, entries[i], entries[j]);
            assert(all_shape_ok(seq![c], draft)) by {
                assert(seq![c][0] == c);
            }
            lemma_all_shape_add(seq![c], teacher_inner(draft, entries, i, j + 1), draft);
        }
    }
}

proof fn lemma_teacher_from_shape(draft: u128, entries: Seq<DraftEntry>, i: int)
    ensures
        all_shape_ok(teacher_from(draft, entries, i), draft),
    decreases entries.len() - i,
{
    if i < 0 || i >= entries.len() {
    } else {
        lemma_teacher_inner_shape(draft, entries, i, i + 1);
        lemma_teacher_from_shape(draft, entries, i + 1);
        lemma_all_shape_add(
            teacher_inner(draft, entries, i, i + 1),
            teacher_from(draft, entries, i + 1),
            draft,
        );
    }
}

proof fn lemma_room_inner_shape(draft: u128, entries: Seq<DraftEntry>, i: int, j: int)
    ensures
        all_shape_ok(room_inner(draft, entries, i, j), draft),
    decreases entries.len() - j,
{
    if j < 0 || j >= entries.len() || i < 0 || i >= entries.len() {
    } else {
        lemma_room_inner_shape(draft, entries, i, j + 1);
        if room_pair(entries[i], entries[j]) {
            let c = room_conflict_data(draft, entries[i], entries[j]);
            assert(all_shape_ok(seq![c], draft)) by {
                assert(seq![c][0] == c);
            }
            lemma_all_shape_add(seq![c], room_inner(draft, entries, i, j + 1), draft);
        }
    }
}

proof fn lemma_room_from_shape(draft: u128, entries: Seq<DraftEntry>, i: int)
    ensures
        all_shape_ok(room_from(draft, entries, i), draft),
    decreases entries.len() - i,
{
    if i < 0 || i >= entries.len() {
    } else {
        lemma_room_inner_shape(draft, entries, i, i + 1);
        lemma_room_from_shape(draft, entries, i + 1);
        lemma_all_shape_add(
            room_inner(draft, entries, i, i + 1),
            room_from(draft, entries, i + 1),
            draft,
        );
    }
}

proof fn lemma_availability_from_shape(
    draft: u128,
    entries: Seq<DraftEntry>,
    windows: Seq<Availability>,
    slots: Seq<TimeSlot>,
    k: int,
)
    ensures
        all_shape_ok(availability_from(draft, entries, windows, slots, k), draft),
    decreases entries.len() - k,
{
    if k < 0 || k >= entries.len() {
    } else {
        lemma_availability_from_shape(draft, entries, windows, slots, k + 1);
        let step = availability_step(draft, entries[k], windows, slots);
        assert(all_shape_ok(step, draft)) by {
            if step.len() > 0 {
                assert(step[0] == availability_conflict_data(draft, entries[k]));
            }
        }
        lemma_all_shape_add(step, availability_from(draft, entries, windows, slots, k + 1), draft);
    }
}

/// Everything detection reports belongs to the draft, starts Open, names
/// its time slot, and names either the affected teacher or the
/// double-booked room, never both.
pub proof fn lemma_detected_shape(
    draft: u128,
    entries: Seq<DraftEntry>,
    windows: Seq<Availability>,
    slots: Seq<TimeSlot>,
)
    ensures
        all_shape_ok(detected_conflicts(draft, entries, windows, slots), draft),
{
    lemma_teacher_from_shape(draft, entries, 0);
    lemma_room_from_shape(draft, entries, 0);
    lemma_availability_from_shape(draft, entries, windows, slots, 0);
    lemma_all_shape_add(teacher_pass(draft, entries), room_pass(draft, entries), draft);
    lemma_all_shape_add(
        teacher_pass(draft, entries) + room_pass(draft, entries),
        availability_pass(draft, entries, windows, slots),
        draft,
    );
}

/// A draft with no entries yields no conflicts.
pub proof fn lemma_detect_no_entries(draft: u128, windows: Seq<Availability>, slots: Seq<TimeSlot>)
    ensures
        detected_conflicts(draft, Seq::empty(), windows, slots) == Seq::<ConflictData>::empty(),
{
    let es = Seq::<DraftEntry>::empty();
    assert(teacher_from(draft, es, 0) == Seq::<ConflictData>::empty());
    assert(room_from(draft, es, 0) == Seq::<ConflictData>::empty());
    assert(availability_from(draft, es, windows, slots, 0) == Seq::<ConflictData>::empty());
    assert(detected_conflicts(draft, es, windows, slots) =~= Seq::<ConflictData>::empty());
}

/// Two entries sharing teacher and slot yield exactly one teacher
/// double-booking conflict; their rooms yield exactly one room conflict
/// when they match too, and none otherwise.
pub proof fn lemma_double_booked_pair(draft: u128, entries: Seq<DraftEntry>)
    requires
        entries.len() == 2,
        teacher_pair(entries[0], entries[1]),
    ensures
        teacher_pass(draft, entries) == seq![
            teacher_conflict_data(draft, entries[0], entries[1]),
        ],
        room_pair(entries[0], entries[1]) ==> room_pass(draft, entries) == seq![
            room_conflict_data(draft, entries[0], entries[1]),
        ],
        !room_pair(entries[0], entries[1]) ==> room_pass(draft, entries)
            == Seq::<ConflictData>::empty(),
{
    assert(teacher_inner(draft, entries, 0, 2) == Seq::<ConflictData>::empty());
    assert(teacher_inner(draft, entries, 1, 2) == Seq::<ConflictData>::empty());
    assert(teacher_from(draft, entries, 2) == Seq::<ConflictData>::empty());
    assert(teacher_from(draft, entries, 1) =~= Seq::<ConflictData>::empty());
    assert(teacher_inner(draft, entries, 0, 1) =~= seq![
        teacher_conflict_data(draft, entries[0], entries[1]),
    ]);
    assert(teacher_pass(draft, entries) =~= seq![
        teacher_conflict_data(draft, entries[0], entries[1]),
    ]);
    assert(room_inner(draft, entries, 0, 2) == Seq::<ConflictData>::empty());
    assert(room_inner(draft, entries, 1, 2) == Seq::<ConflictData>::empty());
    assert(room_from(draft, entries, 2) == Seq::<ConflictData>::empty());
    assert(room_from(draft, entries, 1) =~= Seq::<ConflictData>::empty());
    if room_pair(entries[0], entries[1]) {
        assert(room_inner(draft, entries, 0, 1) =~= seq![
            room_conflict_data(draft, entries[0], entries[1]),
        ]);
        assert(room_pass(draft, entries) =~= seq![
            room_conflict_data(draft, entries[0], entries[1]),
        ]);
    } else {
        assert(room_inner(draft, entries, 0, 1) == Seq::<ConflictData>::empty());
        assert(room_pass(draft, entries) =~= Seq::<ConflictData>::empty());
    }
}

/// The availability conflicts of the entries before position `k`, in
/// entry order.
pub open spec fn availability_upto(
    draft: u128,
    entries: Seq<DraftEntry>,
    windows: Seq<Availability>,
    slots: Seq<TimeSlot>,
    k: int,
) -> Seq<ConflictData>
    decreases k,
{
    if k <= 0 || k > entries.len() {
        Seq::empty()
    } else {
        availability_upto(draft, entries, windows, slots, k - 1) + availability_step(
            draft,
            entries[k - 1],
            windows,
            slots,
        )
    }
}

proof fn lemma_availability_split(
    draft: u128,
    entries: Seq<DraftEntry>,
    windows: Seq<Availability>,
    slots: Seq<TimeSlot>,
    k: int,
)
    requires
        0 <= k <= entries.len(),
    ensures
        availability_pass(draft, entries, windows, slots) == availability_upto(
            draft,
            entries,
            windows,
            slots,
            k,
        ) + availability_from(draft, entries, windows, slots, k),
    decreases k,
{
    if k == 0 {
        assert(availability_upto(draft, entries, windows, slots, 0) + availability_from(
            draft,
            entries,
            windows,
            slots,
            0,
        ) =~= availability_pass(draft, entries, windows, slots));
    } else {
        lemma_availability_split(draft, entries, windows, slots, k - 1);
        assert(availability_from(draft, entries, windows, slots, k - 1) == availability_step(
            draft,
            entries[k - 1],
            windows,
            slots,
        ) + availability_from(draft, entries, windows, slots, k));
        assert(availability_upto(draft, entries, windows, slots, k - 1) + (availability_step(
            draft,
            entries[k - 1],
            windows,
            slots,
        ) + availability_from(draft, entries, windows, slots, k)) =~= availability_upto(
            draft,
            entries,
            windows,
            slots,
            k,
        ) + availability_from(draft, entries, windows, slots, k));
    }
}

/// Each entry is judged on its own by the availability pass: the pass
/// splits around entry `k` into the conflicts of the earlier entries, the
/// entry's own step, and the conflicts of the later entries — and that
/// step is exactly one mismatch conflict when the entry's slot is known
/// and no window of its teacher on the slot's weekday fully contains it,
/// and nothing otherwise.
pub proof fn lemma_availability_per_entry(
    draft: u128,
    entries: Seq<DraftEntry>,
    windows: Seq<Availability>,
    slots: Seq<TimeSlot>,
    k: int,
)
    requires
        0 <= k < entries.len(),
    ensures
        availability_pass(draft, entries, windows, slots) == availability_upto(
            draft,
            entries,
            windows,
            slots,
            k,
        ) + availability_step(draft, entries[k], windows, slots) + availability_from(
            draft,
            entries,
            windows,
            slots,
            k + 1,
        ),
        match slot_by_id(slots, entries[k].time_slot_id) {
            Some(slot) => {
                if covered(
                    windows_for(windows, entries[k].teacher_id, slot_reference_date(slot)),
                    slot,
                ) {
                    availability_step(draft, entries[k], windows, slots)
                        == Seq::<ConflictData>::empty()
                } else {
                    availability_step(draft, entries[k], windows, slots) == seq![
                        availability_conflict_data(draft, entries[k]),
                    ]
                }
            },
            None => availability_step(draft, entries[k], windows, slots)
                == Seq::<ConflictData>::empty(),
        },
{
    lemma_availability_split(draft, entries, windows, slots, k);
    assert(availability_from(draft, entries, windows, slots, k) == availability_step(
        draft,
        entries[k],
        windows,
        slots,
    ) + availability_from(draft, entries, windows, slots, k + 1));
    assert(availability_upto(draft, entries, windows, slots, k) + (availability_step(
        draft,
        entries[k],
        windows,
        slots,
    ) + availability_from(draft, entries, windows, slots, k + 1)) =~= availability_upto(
        draft,
        entries,
        windows,
        slots,
        k,
    ) + availability_step(draft, entries[k], windows, slots) + availability_from(
        draft,
        entries,
        windows,
        slots,
        k + 1,
    ));
}

/// A lone entry is flagged exactly when its slot is known and no window of
/// its teacher on that weekday fully contains it; the pair passes stay
/// empty, so that one conflict, or none, is the whole detection result.
pub proof fn lemma_availability_single(
    draft: u128,
    entries: Seq<DraftEntry>,
    windows: Seq<Availability>,
    slots: Seq<TimeSlot>,
)
    requires
        entries.len() == 1,
    ensures
        detected_conflicts(draft, entries, windows, slots) == availability_step(
            draft,
            entries[0],
            windows,
            slots,
        ),
        match slot_by_id(slots, entries[0].time_slot_id) {
            Some(slot) => {
                if covered(
                    windows_for(windows, entries[0].teacher_id, slot_reference_date(slot)),
                    slot,
                ) {
                    detected_conflicts(draft, entries, windows, slots)
                        == Seq::<ConflictData>::empty()
                } else {
                    detected_conflicts(draft, entries, windows, slots) == seq![
                        availability_conflict_data(draft, entries[0]),
                    ]
                }
            },
            None => detected_conflicts(draft, entries, windows, slots)
                == Seq::<ConflictData>::empty(),
        },
{
    assert(teacher_inner(draft, entries, 0, 1) == Seq::<ConflictData>::empty());
    assert(teacher_from(draft, entries, 1) == Seq::<ConflictData>::empty());
    assert(teacher_pass(draft, entries) =~= Seq::<ConflictData>::empty());
    assert(room_inner(draft, entries, 0, 1) == Seq::<ConflictData>::empty());
    assert(room_from(draft, entries, 1) == Seq::<ConflictData>::empty());
    assert(room_pass(draft, entries) =~= Seq::<ConflictData>::empty());
    assert(availability_from(draft, entries, windows, slots, 1) == Seq::<ConflictData>::empty());
    assert(availability_pass(draft, entries, windows, slots) =~= availability_step(
        draft,
        entries[0],
        windows,
        slots,
    ));
    assert(detected_conflicts(draft, entries, windows, slots) =~= availability_step(
        draft,
        entries[0],
        windows,
        slots,
    ));
}

/// The predicate the open-conflict count goes by.
pub open spec fn open_pred(draft: u128) -> spec_fn(ConflictData) -> bool {
    |c: ConflictData| c.draft_timetable_id == draft && c.status is Open
}

/// Count of a draft's Open conflicts among conflict data.
pub open spec fn open_count_for(ds: Seq<ConflictData>, draft: u128) -> nat {
    ds.filter(open_pred(draft)).len()
}

/// A filter that keeps every element returns the sequence unchanged.
proof fn lemma_filter_retains_all<A>(s: Seq<A>, p: spec_fn(A) -> bool)
    requires
        forall|x: int| 0 <= x < s.len() ==> p(#[trigger] s[x]),
    ensures
        s.filter(p) == s,
    decreases s.len(),
{
    reveal(Seq::filter);
    if s.len() > 0 {
        lemma_filter_retains_all(s.drop_last(), p);
        assert(s.drop_last().push(s.last()) =~= s);
    }
}

/// Every conflict of a detection batch counts as Open for its draft.
pub proof fn lemma_detection_batch_all_open(
    batch: Seq<Conflict>,
    draft: u128,
    entries: Seq<DraftEntry>,
    windows: Seq<Availability>,
    slots: Seq<TimeSlot>,
)
    requires
        data_seq(batch) == detected_conflicts(draft, entries, windows, slots),
    ensures
        open_count_for(data_seq(batch), draft) == batch.len(),
{
    lemma_detected_shape(draft, entries, windows, slots);
    let ds = data_seq(batch);
    let p = open_pred(draft);
    assert forall|x: int| 0 <= x < ds.len() implies p(#[trigger] ds[x]) by {
        assert(conflict_shape_ok(ds[x], draft));
    }
    lemma_filter_retains_all(ds, p);
}

/// Detection does not deduplicate: a second run over an unchanged draft
/// appends the same conflicts afresh, doubling the Open conflicts the
/// ledger stores for it.
pub proof fn lemma_repeat_detection_doubles(
    prior: Seq<Conflict>,
    first: Seq<Conflict>,
    second: Seq<Conflict>,
    draft: u128,
    entries: Seq<DraftEntry>,
    windows: Seq<Availability>,
    slots: Seq<TimeSlot>,
)
    requires
        data_seq(first) == detected_conflicts(draft, entries, windows, slots),
        data_seq(second) == detected_conflicts(draft, entries, windows, slots),
    ensures
        open_count_for(data_seq(prior + first + second), draft) == open_count_for(
            data_seq(prior),
            draft,
        ) + 2 * open_count_for(data_seq(first), draft),
{
    let a = data_seq(prior);
    let b = data_seq(first);
    let c = data_seq(second);
    let p = open_pred(draft);
    assert(data_seq(prior + first + second) =~= a + b + c);
    Seq::filter_distributes_over_add(a + b, c, p);
    Seq::filter_distributes_over_add(a, b, p);
    assert(open_count_for(a + b + c, draft) == open_count_for(a, draft) + open_count_for(b, draft)
        + open_count_for(c, draft));
}

/// A detected conflict can be addressed by the id detection returned: with
/// the batch appended to the ledger, its ids pairwise distinct and none of
/// them on an older conflict, lookup by a batch conflict's id lands on
/// exactly that conflict.
pub proof fn lemma_lookup_finds_detected(prior: Seq<Conflict>, batch: Seq<Conflict>, j: int)
    requires
        0 <= j < batch.len(),
        forall|a: int, b: int|
            0 <= a < b < batch.len() ==> (#[trigger] batch[a]).id != (#[trigger] batch[b]).id,
        forall|k: int| 0 <= k < prior.len() ==> (#[trigger] prior[k]).id != batch[j].id,
    ensures
        conflict_index(prior + batch, batch[j].id) == Some(prior.len() + j),
{
    let s = prior + batch;
    let p = conflict_id_pred(batch[j].id);
    assert forall|k: int| 0 <= k < prior.len() + j implies !(#[trigger] p(s[k])) by {
        if k < prior.len() {
            assert(s[k] == prior[k]);
        } else {
            assert(s[k] == batch[k - prior.len()]);
            assert(batch[k - prior.len()].id != batch[j].id);
        }
    }
    assert(s[prior.len() + j] == batch[j]);
    lemma_find_first_prefix(s, p, prior.len() + j);
}

/// Searching a draft's own conflicts for an Open one agrees with searching
/// the whole ledger: the publication gate may look at either.
pub proof fn lemma_open_in_filtered(s: Seq<Conflict>, draft: u128)
    ensures
        (exists|j: int|
            0 <= j < conflicts_for(s, draft).len() && (#[trigger] conflicts_for(s, draft)[j]).status
                is Open) <==> open_conflict_exists(s, draft),
    decreases s.len(),
{
    reveal(Seq::filter);
    if s.len() == 0 {
    } else {
        let prefix = s.drop_last();
        let last = s.last();
        lemma_open_in_filtered(prefix, draft);
        let fp = conflicts_for(prefix, draft);
        let f = conflicts_for(s, draft);
        if exists|j: int| 0 <= j < f.len() && (#[trigger] f[j]).status is Open {
            let j = choose|j: int| 0 <= j < f.len() && (#[trigger] f[j]).status is Open;
            if last.draft_timetable_id == draft && j == f.len() - 1 {
                assert(s[s.len() - 1].draft_timetable_id == draft && s[s.len() - 1].status
                    is Open);
            } else {
                assert(0 <= j < fp.len() && fp[j].status is Open);
                let i = choose|i: int|
                    0 <= i < prefix.len() && (#[trigger] prefix[i]).draft_timetable_id == draft
                        && prefix[i].status is Open;
                assert(s[i].draft_timetable_id == draft && s[i].status is Open);
            }
        }
        if open_conflict_exists(s, draft) {
            let i = choose|i: int|
                0 <= i < s.len() && (#[trigger] s[i]).draft_timetable_id == draft && s[i].status
                    is Open;
            if i == s.len() - 1 {
                assert(f[f.len() - 1].status is Open);
            } else {
                assert(prefix[i].draft_timetable_id == draft && prefix[i].status is Open);
                let j = choose|j: int| 0 <= j < fp.len() && (#[trigger] fp[j]).status is Open;
                assert(0 <= j < f.len() && f[j].status is Open);
            }
        }
    }
}

/// Recording one more conflict appends its data to the batch's data.
pub proof fn lemma_data_seq_push(s: Seq<Conflict>, c: Conflict)
    ensures
        data_seq(s.push(c)) == data_seq(s).push(data_of(c)),
{
    assert(data_seq(s.push(c)) =~= data_seq(s).push(data_of(c)));
}

/// The conflict ledger and the detector that fills it.
pub struct ConflictService {
    conflicts: Vec<Conflict>,
}

impl View for ConflictService {
    type V = Seq<Conflict>;

    closed spec fn view(&self) -> Seq<Conflict> {
        self.conflicts@
    }
}

impl ConflictService {
    /// Identities are the ledger's own: each conflict's id is its position
    /// in the ledger, so stored ids are pairwise distinct and resolution by
    /// id is unambiguous.
    #[verifier::type_invariant]
    spec fn wf(self) -> bool {
        forall|i: int| 0 <= i < self.conflicts@.len() ==> (#[trigger] self.conflicts@[i]).id == i
    }

    pub fn new() -> (s: Self)
        ensures
            s@ == Seq::<Conflict>::empty(),
    {
        ConflictService { conflicts: Vec::new() }
    }

    /// Appends one freshly detected conflict to the ledger and to the batch
    /// being returned.
    fn record(&mut self, found: &mut Vec<Conflict>, c: Conflict)
        requires
            c.id == old(self)@.len(),
        ensures
            final(self)@ == old(self)@.push(c),
            final(found)@ == old(found)@.push(c),
    {
        proof {
            use_type_invariant(&*self);
        }
        let mut rows: Vec<Conflict> = Vec::new();
        core::mem::swap(&mut rows, &mut self.conflicts);
        rows.push(c.clone());
        proof {
            assert forall|k: int| 0 <= k < rows@.len() implies (#[trigger] rows@[k]).id == k by {
                if k < old(self)@.len() {
                    assert(rows@[k] == old(self)@[k]);
                } else {
                    assert(rows@[k] == c);
                }
            }
        }
        self.conflicts = rows;
        found.push(c);
    }

    /// Runs the three detection passes over the draft's entries, appending
    /// every detected conflict to the ledger with status `Open` and
    /// returning the batch. Nothing is deduplicated against earlier runs:
    /// re-detection appends the same conflicts afresh.
    pub fn get_conflicts(
        &mut self,
        entry_store: &DraftEntryService,
        availability: &AvailabilityService,
        time_slots: &TimeSlotStore,
        draft_timetable_id: u128,
    ) -> (r: Vec<Conflict>)
        ensures
            final(self)@ == old(self)@ + r@,
            data_seq(r@) == detected_conflicts(
                draft_timetable_id,
                entries_for(entry_store@, draft_timetable_id),
                availability@,
                time_slots@,
            ),
            forall|i: int, j: int|
                0 <= i < j < r@.len() ==> (#[trigger] r@[i]).id != (#[trigger] r@[j]).id,
            forall|i: int, k: int|
                0 <= i < r@.len() && 0 <= k < old(self)@.len() ==> (#[trigger] r@[i]).id != (
                #[trigger] old(self)@[k]).id,
    {
        proof {
            use_type_invariant(&*self);
        }
        let d = draft_timetable_id;
        let entries = entry_store.get_entries_for_draft(d);
        let ghost es = entries@;
        let ghost ws = availability@;
        let ghost sl = time_slots@;
        let ghost ledger0 = self.conflicts@;
        proof {
            assert(forall|k: int| 0 <= k < ledger0.len() ==> (#[trigger] ledger0[k]).id == k);
        }
        let mut found: Vec<Conflict> = Vec::new();
        let now = Instant::now();
        proof {
            assert(data_seq(found@) =~= Seq::<ConflictData>::empty());
            assert(data_seq(found@) + teacher_from(d, es, 0) =~= teacher_from(d, es, 0));
        }
        // Teacher double-booking: every unordered pair sharing teacher and slot.
        let mut i: usize = 0;
        while i < entries.len()
            invariant
                i <= entries.len(),
                es == entries@,
                old(self)@ == ledger0,
                self.conflicts@ == ledger0 + found@,
                forall|k: int|
                    0 <= k < found@.len() ==> (#[trigger] found@[k]).id == ledger0.len() + k,
                data_seq(found@) + teacher_from(d, es, i as int) == teacher_pass(d, es),
            decreases entries.len() - i,
        {
            proof {
                assert(teacher_from(d, es, i as int) == teacher_inner(d, es, i as int, i as int + 1)
                    + teacher_from(d, es, i as int + 1));
                assert(data_seq(found@) + teacher_inner(d, es, i as int, i as int + 1)
                    + teacher_from(d, es, i as int + 1) =~= data_seq(found@) + teacher_from(
                    d,
                    es,
                    i as int,
                ));
            }
            let mut j: usize = i + 1;
            while j < entries.len()
                invariant
                    i < entries.len(),
                    i < j <= entries.len(),
                    es == entries@,
                    old(self)@ == ledger0,
                    self.conflicts@ == ledger0 + found@,
                forall|k: int|
                    0 <= k < found@.len() ==> (#[trigger] found@[k]).id == ledger0.len() + k,
                    data_seq(found@) + teacher_inner(d, es, i as int, j as int) + teacher_from(
                        d,
                        es,
                        i as int + 1,
                    ) == teacher_pass(d, es),
                decreases entries.len() - j,
            {
                let e1 = entries[i];
                let e2 = entries[j];
                if e1.teacher_id == e2.teacher_id && e1.time_slot_id == e2.time_slot_id {
                    let ghost found_prev = found@;
                    let c = Conflict {
                        id: self.conflicts.len() as u128,
                        draft_timetable_id: d,
                        description: teacher_conflict_description(e1.course_id, e2.course_id),
                        teacher_id: Some(e1.teacher_id),
                        room_id: None,
                        time_slot_id: Some(e1.time_slot_id),
                        status: ConflictStatus::Open,
                        created_at: now,
                        updated_at: now,
                    };
                    proof {
                        assert(data_of(c) =~= teacher_conflict_data(d, es[i as int], es[j as int]));
                    }
                    self.record(&mut found, c);
                    proof {
                        lemma_data_seq_push(found_prev, c);
                        assert(self.conflicts@ =~= ledger0 + found@);
                        assert(teacher_inner(d, es, i as int, j as int) == seq![
                            teacher_conflict_data(d, es[i as int], es[j as int]),
                        ] + teacher_inner(d, es, i as int, j as int + 1));
                        assert(data_seq(found@) + teacher_inner(d, es, i as int, j as int + 1)
                            =~= data_seq(found_prev) + teacher_inner(d, es, i as int, j as int));
                    }
                } else {
                    proof {
                        assert(teacher_inner(d, es, i as int, j as int) == teacher_inner(
                            d,
                            es,
                            i as int,
                            j as int + 1,
                        ));
                    }
                }
                j = j + 1;
            }
            proof {
                assert(teacher_inner(d, es, i as int, entries@.len() as int)
                    == Seq::<ConflictData>::empty());
                assert(data_seq(found@) + Seq::<ConflictData>::empty() =~= data_seq(found@));
            }
            i = i + 1;
        }
        proof {
            assert(teacher_from(d, es, es.len() as int) == Seq::<ConflictData>::empty());
            assert(data_seq(found@) + Seq::<ConflictData>::empty() =~= data_seq(found@));
            assert(data_seq(found@) + room_from(d, es, 0) =~= teacher_pass(d, es) + room_from(
                d,
                es,
                0,
            ));
        }
        // Room double-booking: the same pass keyed on the room.
        let mut i: usize = 0;
        while i < entries.len()
            invariant
                i <= entries.len(),
                es == entries@,
                old(self)@ == ledger0,
                self.conflicts@ == ledger0 + found@,
                forall|k: int|
                    0 <= k < found@.len() ==> (#[trigger] found@[k]).id == ledger0.len() + k,
                data_seq(found@) + room_from(d, es, i as int) == teacher_pass(d, es) + room_pass(
                    d,
                    es,
                ),
            decreases entries.len() - i,
        {
            proof {
                assert(room_from(d, es, i as int) == room_inner(d, es, i as int, i as int + 1)
                    + room_from(d, es, i as int + 1));
                assert(data_seq(found@) + room_inner(d, es, i as int, i as int + 1) + room_from(
                    d,
                    es,
                    i as int + 1,
                ) =~= data_seq(found@) + room_from(d, es, i as int));
            }
            let mut j: usize = i + 1;
            while j < entries.len()
                invariant
                    i < entries.len(),
                    i < j <= entries.len(),
                    es == entries@,
                    old(self)@ == ledger0,
                    self.conflicts@ == ledger0 + found@,
                forall|k: int|
                    0 <= k < found@.len() ==> (#[trigger] found@[k]).id == ledger0.len() + k,
                    data_seq(found@) + room_inner(d, es, i as int, j as int) + room_from(
                        d,
                        es,
                        i as int + 1,
                    ) == teacher_pass(d, es) + room_pass(d, es),
                decreases entries.len() - j,
            {
                let e1 = entries[i];
                let e2 = entries[j];
                if e1.room_id == e2.room_id && e1.time_slot_id == e2.time_slot_id {
                    let ghost found_prev = found@;
                    let c = Conflict {
                        id: self.conflicts.len() as u128,
                        draft_timetable_id: d,
                        description: room_conflict_description(e1.course_id, e2.course_id),
                        teacher_id: None,
                        room_id: Some(e1.room_id),
                        time_slot_id: Some(e1.time_slot_id),
                        status: ConflictStatus::Open,
                        created_at: now,
                        updated_at: now,
                    };
                    proof {
                        assert(data_of(c) =~= room_conflict_data(d, es[i as int], es[j as int]));
                    }
                    self.record(&mut found, c);
                    proof {
                        lemma_data_seq_push(found_prev, c);
                        assert(self.conflicts@ =~= ledger0 + found@);
                        assert(room_inner(d, es, i as int, j as int) == seq![
                            room_conflict_data(d, es[i as int], es[j as int]),
                        ] + room_inner(d, es, i as int, j as int + 1));
                        assert(data_seq(found@) + room_inner(d, es, i as int, j as int + 1)
                            =~= data_seq(found_prev) + room_inner(d, es, i as int, j as int));
                    }
                } else {
                    proof {
                        assert(room_inner(d, es, i as int, j as int) == room_inner(
                            d,
                            es,
                            i as int,
                            j as int + 1,
                        ));
                    }
                }
                j = j + 1;
            }
            proof {
                assert(room_inner(d, es, i as int, entries@.len() as int)
                    == Seq::<ConflictData>::empty());
                assert(data_seq(found@) + Seq::<ConflictData>::empty() =~= data_seq(found@));
            }
            i = i + 1;
        }
        proof {
            assert(room_from(d, es, es.len() as int) == Seq::<ConflictData>::empty());
            assert(data_seq(found@) + Seq::<ConflictData>::empty() =~= data_seq(found@));
            assert(data_seq(found@) + availability_from(d, es, ws, sl, 0) =~= teacher_pass(d, es)
                + room_pass(d, es) + availability_from(d, es, ws, sl, 0));
        }
        // Availability: each entry's slot must lie inside some window of its
        // teacher on that weekday.
        let mut k: usize = 0;
        while k < entries.len()
            invariant
                k <= entries.len(),
                es == entries@,
                ws == availability@,
                sl == time_slots@,
                old(self)@ == ledger0,
                self.conflicts@ == ledger0 + found@,
                forall|k: int|
                    0 <= k < found@.len() ==> (#[trigger] found@[k]).id == ledger0.len() + k,
                data_seq(found@) + availability_from(d, es, ws, sl, k as int) == teacher_pass(d, es)
                    + room_pass(d, es) + availability_pass(d, es, ws, sl),
            decreases entries.len() - k,
        {
            let e = entries[k];
            proof {
                assert(availability_from(d, es, ws, sl, k as int) == availability_step(
                    d,
                    es[k as int],
                    ws,
                    sl,
                ) + availability_from(d, es, ws, sl, k as int + 1));
            }
            match time_slots.find_by_id(e.time_slot_id) {
                None => {
                    proof {
                        assert(availability_step(d, es[k as int], ws, sl)
                            == Seq::<ConflictData>::empty());
                        assert(data_seq(found@) + availability_from(d, es, ws, sl, k as int + 1)
                            =~= data_seq(found@) + availability_from(d, es, ws, sl, k as int));
                    }
                },
                Some(slot) => {
                    let date = REFERENCE_SUNDAY + (slot.day_of_week as u64);
                    let windows = availability.get_availability(e.teacher_id, date);
                    proof {
                        assert(date as int == slot_reference_date(slot));
                        assert(windows@ == windows_for(ws, e.teacher_id, slot_reference_date(slot)));
                    }
                    let mut is_covered = false;
                    let mut m: usize = 0;
                    while m < windows.len()
                        invariant
                            m <= windows.len(),
                            is_covered ==> covered(windows@, slot),
                            !is_covered ==> forall|x: int|
                                0 <= x < m as int ==> !window_covers(
                                    #[trigger] windows@[x],
                                    slot,
                                ),
                        decreases windows.len() - m,
                    {
                        let w = windows[m];
                        if w.start_time <= slot.start_time && w.end_time >= slot.end_time {
                            is_covered = true;
                        }
                        m = m + 1;
                    }
                    proof {
                        if !is_covered {
                            assert(!covered(windows@, slot));
                        }
                    }
                    if !is_covered {
                        let ghost found_prev = found@;
                        let c = Conflict {
                            id: self.conflicts.len() as u128,
                            draft_timetable_id: d,
                            description: availability_conflict_description(e.time_slot_id),
                            teacher_id: Some(e.teacher_id),
                            room_id: None,
                            time_slot_id: Some(e.time_slot_id),
                            status: ConflictStatus::Open,
                            created_at: now,
                            updated_at: now,
                        };
                        proof {
                            assert(data_of(c) =~= availability_conflict_data(d, es[k as int]));
                        }
                        self.record(&mut found, c);
                        proof {
                            lemma_data_seq_push(found_prev, c);
                            assert(self.conflicts@ =~= ledger0 + found@);
                            assert(availability_step(d, es[k as int], ws, sl) == seq![
                                availability_conflict_data(d, es[k as int]),
                            ]);
                            assert(data_seq(found@) + availability_from(d, es, ws, sl, k as int + 1)
                                =~= data_seq(found_prev) + availability_from(
                                d,
                                es,
                                ws,
                                sl,
                                k as int,
                            ));
                        }
                    } else {
                        proof {
                            assert(availability_step(d, es[k as int], ws, sl)
                                == Seq::<ConflictData>::empty());
                            assert(data_seq(found@) + availability_from(d, es, ws, sl, k as int + 1)
                                =~= data_seq(found@) + availability_from(d, es, ws, sl, k as int));
                        }
                    }
                },
            }
            k = k + 1;
        }
        proof {
            assert(availability_from(d, es, ws, sl, es.len() as int)
                == Seq::<ConflictData>::empty());
            assert(data_seq(found@) + Seq::<ConflictData>::empty() =~= data_seq(found@));
        }
        found
    }

    /// Unconditionally overwrites the status of the addressed conflict; any
    /// transition is allowed. Fails only when the conflict does not exist.
    pub fn resolve_conflict(&mut self, conflict_id: u128, status: ConflictStatus) -> (r: Result<
        Conflict,
        AppError,
    >)
        ensures
            match r {
                Ok(c) => {
                    &&& conflict_index(old(self)@, conflict_id) matches Some(i)
                    &&& {
                        let i = conflict_index(old(self)@, conflict_id)->Some_0;
                        let prev = old(self)@[i];
                        &&& final(self)@ == old(self)@.update(i, c)
                        &&& c.id == prev.id
                        &&& c.draft_timetable_id == prev.draft_timetable_id
                        &&& c.description == prev.description
                        &&& c.teacher_id == prev.teacher_id
                        &&& c.room_id == prev.room_id
                        &&& c.time_slot_id == prev.time_slot_id
                        &&& c.status == status
                        &&& c.created_at == prev.created_at
                    }
                },
                Err(e) => {
                    &&& e is NotFound
                    &&& conflict_index(old(self)@, conflict_id) is None
                    &&& final(self)@ == old(self)@
                },
            },
    {
        let ghost prior = self.conflicts@;
        let mut i: usize = 0;
        while i < self.conflicts.len()
            invariant
                i <= self.conflicts.len(),
                self.conflicts@ == prior,
                old(self)@ == prior,
                forall|k: int| 0 <= k < i as int ==> (#[trigger] self.conflicts@[k]).id
                    != conflict_id,
            decreases self.conflicts.len() - i,
        {
            if self.conflicts[i].id == conflict_id {
                proof {
                    let p = conflict_id_pred(conflict_id);
                    assert forall|k: int| 0 <= k < i as int implies !(#[trigger] p(
                        self.conflicts@[k],
                    )) by {
                        assert(self.conflicts@[k].id != conflict_id);
                    }
                    lemma_find_first_prefix(self.conflicts@, p, i as int);
                }
                proof {
                    use_type_invariant(&*self);
                }
                let mut updated = self.conflicts[i].clone();
                updated.status = status;
                updated.updated_at = Instant::now();
                let r = updated.clone();
                let mut rows: Vec<Conflict> = Vec::new();
                core::mem::swap(&mut rows, &mut self.conflicts);
                rows.set(i, updated);
                proof {
                    assert forall|k: int| 0 <= k < rows@.len() implies (#[trigger] rows@[k]).id
                        == k by {
                        if k != i as int {
                            assert(rows@[k] == prior[k]);
                        }
                    }
                }
                self.conflicts = rows;
                return Ok(r);
            }
            i = i + 1;
        }
        proof {
            let p = conflict_id_pred(conflict_id);
            assert forall|k: int| 0 <= k < self.conflicts@.len() implies !(#[trigger] p(
                self.conflicts@[k],
            )) by {
                assert(self.conflicts@[k].id != conflict_id);
            }
            lemma_find_first_prefix(self.conflicts@, p, self.conflicts@.len() as int);
        }
        Err(AppError::NotFound)
    }

    /// All stored conflicts of the draft, in insertion order.
    pub fn get_conflicts_for_draft(&self, draft_id: u128) -> (r: Vec<Conflict>)
        ensures
            r@ == conflicts_for(self@, draft_id),
    {
        let mut r: Vec<Conflict> = Vec::new();
        let mut i: usize = 0;
        while i < self.conflicts.len()
            invariant
                i <= self.conflicts.len(),
                r@ == conflicts_for(self.conflicts@.take(i as int), draft_id),
            decreases self.conflicts.len() - i,
        {
            let c = &self.conflicts[i];
            let ghost r_prev = r@;
            if c.draft_timetable_id == draft_id {
                r.push(c.clone());
            }
            proof {
                reveal(Seq::filter);
                let t1 = self.conflicts@.take(i as int + 1);
                assert(t1.drop_last() =~= self.conflicts@.take(i as int));
                assert(t1.last() == self.conflicts@[i as int]);
                assert(conflicts_for(t1, draft_id) == if self.conflicts@[i as int].draft_timetable_id
                    == draft_id {
                    r_prev.push(self.conflicts@[i as int])
                } else {
                    r_prev
                });
                assert(r@ == conflicts_for(t1, draft_id));
            }
            i = i + 1;
        }
        proof {
            assert(self.conflicts@.take(self.conflicts@.len() as int) =~= self.conflicts@);
        }
        r
    }
}

} // verus!
