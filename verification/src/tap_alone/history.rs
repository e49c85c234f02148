//! What the tap-alone recognizer fires, told from the events alone.
//!
//! Nothing here speaks of the recognizer's phases: whether a tap waits follows from
//! which keys went down and up, when, and with which modifiers held.

use vstd::prelude::*;

use crate::error::Error;
use crate::text;
use crate::time::Instant;
use crate::types::{InputActivity, KeyEvent, TapAlone, TapAloneEvent, TapAloneId, TriggerKey};

use super::laws;
use super::model::{self, Phase, TapAloneModel};

verus! {

/// Whether a mouse button goes down or the wheel turns.
pub open spec fn mouse(event: KeyEvent) -> bool {
    match event.activity {
        Some(InputActivity::MouseButtonDown(_)) => true,
        Some(InputActivity::ScrollWheel) => true,
        Some(InputActivity::MouseButtonUp(_)) => false,
        None => false,
    }
}

/// Whether an event is about a trigger: its key, or its modifier if there is no key.
pub open spec fn about(event: KeyEvent, trigger: TriggerKey) -> bool {
    match trigger {
        TriggerKey::Key(key) => event.key == Some(key),
        TriggerKey::Modifier(own) => event.key is None && event.changed_modifier == Some(own),
    }
}

/// Whether an event takes a trigger down.
pub open spec fn presses(event: KeyEvent, trigger: TriggerKey) -> bool {
    !mouse(event) && about(event, trigger) && event.is_key_down
}

/// Whether an event lets a trigger up.
pub open spec fn releases(event: KeyEvent, trigger: TriggerKey) -> bool {
    !mouse(event) && about(event, trigger) && !event.is_key_down
}

/// Whether an event reports a modifier besides the trigger.
pub open spec fn accompanied(event: KeyEvent, trigger: TriggerKey) -> bool {
    match trigger {
        TriggerKey::Key(_) => event.modifiers.bits != 0,
        TriggerKey::Modifier(own) => event.modifiers.bits & (!own.bits & 0x1ff) != 0,
    }
}

/// Whether a trigger is down after the first `n` events: the last of them that
/// moved it was a press, whatever modifiers were held.
pub open spec fn down(events: Seq<(KeyEvent, Instant)>, n: int, trigger: TriggerKey) -> bool
    decreases n,
{
    n > 0 && (presses(events[n - 1].0, trigger) || !releases(events[n - 1].0, trigger) && down(
        events,
        n - 1,
        trigger,
    ))
}

/// The place of the press since which a trigger has been down after the first `n` events.
pub open spec fn since(events: Seq<(KeyEvent, Instant)>, n: int, trigger: TriggerKey) -> int
    decreases n,
{
    if n <= 0 {
        -1
    } else if presses(events[n - 1].0, trigger) && !down(events, n - 1, trigger) {
        n - 1
    } else {
        since(events, n - 1, trigger)
    }
}

/// Whether an event leaves the press of a trigger alone: it moves nothing, or it
/// is of the trigger itself and reports no other modifier.
pub open spec fn leaves_alone(event: KeyEvent, trigger: TriggerKey) -> bool {
    &&& !mouse(event)
    &&& event.key is None && event.changed_modifier is None || about(event, trigger)
        && !accompanied(event, trigger)
}

/// Whether a trigger that went down at `p` was alone up to the event at `n`: nothing
/// else was down, no other modifier was held, and nothing happened since.
pub open spec fn alone(
    events: Seq<(KeyEvent, Instant)>,
    p: int,
    n: int,
    trigger: TriggerKey,
) -> bool {
    &&& !accompanied(events[p].0, trigger)
    &&& forall|other: TriggerKey| other != trigger ==> !#[trigger] down(events, p, other)
    &&& forall|j: int| p < j < n ==> leaves_alone((#[trigger] events[j]).0, trigger)
}

/// Whether a tap that was completed at a place still waits at a time.
pub open spec fn still_waits(
    events: Seq<(KeyEvent, Instant)>,
    place: Option<int>,
    suppression: u128,
    now: Instant,
) -> bool {
    place matches Some(r) && now.nanos < events[r].1.nanos + suppression
}

/// The place of the release that completed the tap which waits after the first `n`
/// events, if there is one.
///
/// A release completes a tap if the trigger was alone from its press on, for less
/// than the limit, and its press was no second press while a tap waited. A tap waits
/// until its trigger goes down again, or until an event comes at its deadline or later.
pub open spec fn waiting(
    events: Seq<(KeyEvent, Instant)>,
    n: int,
    pattern: TapAlone,
) -> Option<int>
    decreases n,
{
    if n <= 0 {
        None
    } else {
        let trigger = pattern.trigger;
        let suppression = pattern.double_tap_suppression.nanos;
        let limit = pattern.max_press_duration.nanos;
        let r = n - 1;
        let p = since(events, r, trigger);
        let before = waiting(events, r, pattern);
        if presses(events[r].0, trigger) {
            None
        } else if releases(events[r].0, trigger) && down(events, r, trigger) && 0 <= p < r && alone(
            events,
            p,
            r,
            trigger,
        ) && !accompanied(events[r].0, trigger) && limit > 0 && events[r].1.nanos
            - events[p].1.nanos < limit && !still_waits(
            events,
            waiting(events, p, pattern),
            suppression,
            events[p].1,
        ) {
            Some(r)
        } else if still_waits(events, before, suppression, events[r].1) {
            before
        } else {
            None
        }
    }
}

/// Whether the deadline of a tap completed at any of the events can be represented.
pub open spec fn deadlines_fit(m: TapAloneModel, events: Seq<(KeyEvent, Instant)>) -> bool {
    forall|i: int, id: u32|
        #![trigger events[i], m.patterns[id]]
        0 <= i < events.len() && m.patterns.contains_key(id) ==> events[i].1.nanos
            + m.patterns[id].double_tap_suppression.nanos <= u128::MAX
}

proof fn lemma_about(event: KeyEvent, trigger: TriggerKey)
    ensures
        about(event, trigger) <==> TriggerKey::of_event(event) == Some(trigger),
        mouse(event) <==> model::interruption(event),
        accompanied(event, trigger) <==> model::chorded(event.modifiers, trigger),
        event.key is None && event.changed_modifier is None <==> TriggerKey::of_event(event)
            is None,
{
}

/// A recognizer whose triggers were all idle takes a trigger for down exactly if the
/// last event that moved it was a press: a release ends that, whatever modifiers
/// are held, and the events of other triggers do not.
pub proof fn held_triggers_are_those_pressed_last(
    m: TapAloneModel,
    events: Seq<(KeyEvent, Instant)>,
    trigger: TriggerKey,
)
    requires
        forall|t: TriggerKey| !#[trigger] m.phases.contains_key(t),
    ensures
        ({
            let after = laws::run(m, events);
            (after.phases.contains_key(trigger) && !(after.phases[trigger] is Pending)) <==> down(
                events,
                events.len() as int,
                trigger,
            )
        }),
{
    lemma_held(m, events, events.len() as int, trigger);
    assert(events.take(events.len() as int) =~= events);
}

proof fn lemma_held(m: TapAloneModel, events: Seq<(KeyEvent, Instant)>, n: int, trigger: TriggerKey)
    requires
        forall|t: TriggerKey| !#[trigger] m.phases.contains_key(t),
        0 <= n <= events.len(),
    ensures
        ({
            let after = laws::run(m, events.take(n));
            (after.phases.contains_key(trigger) && !(after.phases[trigger] is Pending)) <==> down(
                events,
                n,
                trigger,
            )
        }),
    decreases n,
{
    if n > 0 {
        lemma_held(m, events, n - 1, trigger);
        assert(events.take(n).drop_last() =~= events.take(n - 1));
        lemma_about(events[n - 1].0, trigger);
    }
}

/// Where a trigger with a pattern stands after the first `n` events.
spec fn stands(
    m: TapAloneModel,
    events: Seq<(KeyEvent, Instant)>,
    n: int,
    id: u32,
    phase: Option<Phase>,
) -> bool {
    let pattern = m.patterns[id];
    let trigger = pattern.trigger;
    let p = since(events, n, trigger);
    let suppression = pattern.double_tap_suppression.nanos;
    if down(events, n, trigger) {
        &&& waiting(events, n, pattern) is None
        &&& 0 <= p < n
        &&& if still_waits(events, waiting(events, p, pattern), suppression, events[p].1) {
            phase == Some(Phase::Suppressed)
        } else {
            phase == Some(
                Phase::Pressed {
                    id: TapAloneId(id),
                    pattern,
                    started_at: events[p].1,
                    interrupted: !alone(events, p, n, trigger),
                },
            )
        }
    } else {
        match waiting(events, n, pattern) {
            Some(r) => 0 <= r < n && phase == Some(
                Phase::Pending { id: TapAloneId(id), emit_at: events[r].1.plus(
                    pattern.double_tap_suppression,
                ) },
            ),
            None => phase is None,
        }
    }
}

proof fn lemma_stands(m: TapAloneModel, events: Seq<(KeyEvent, Instant)>, n: int, id: u32)
    requires
        m.wf(),
        forall|t: TriggerKey| !#[trigger] m.phases.contains_key(t),
        m.patterns.contains_key(id),
        deadlines_fit(m, events),
        0 <= n <= events.len(),
    ensures
        stands(m, events, n, id, laws::run(m, events.take(n)).phase(m.patterns[id].trigger)),
    decreases n,
{
    let pattern = m.patterns[id];
    let trigger = pattern.trigger;
    laws::runs_keep_states_reachable(m, events.take(n));
    if n > 0 {
        let e = events[n - 1].0;
        let at = events[n - 1].1;
        let before = laws::run(m, events.take(n - 1));
        lemma_stands(m, events, n - 1, id);
        laws::runs_keep_states_reachable(m, events.take(n - 1));
        assert(events.take(n).drop_last() =~= events.take(n - 1));
        assert(events.take(n).last() == events[n - 1]);
        let start = before.drained(at);
        let after = laws::run(m, events.take(n));
        assert(after == start.after(e, at));
        assert(start.patterns == m.patterns);
        assert(model::serves(start.patterns, id, trigger));
        assert(start.registered(trigger));
        assert(start.id_for(trigger) == id);
        lemma_about(e, trigger);
        assert(start.other_down(trigger) <==> exists|other: TriggerKey|
            other != trigger && #[trigger] down(events, n - 1, other)) by {
            assert forall|other: TriggerKey|
                (start.phases.contains_key(other) && start.phases[other].down()) <==> #[trigger] down(
                events,
                n - 1,
                other,
            ) by {
                lemma_held(m, events, n - 1, other);
            }
            if exists|other: TriggerKey| other != trigger && #[trigger] down(events, n - 1, other) {
                let other = choose|other: TriggerKey|
                    other != trigger && #[trigger] down(events, n - 1, other);
                assert(start.phases.contains_key(other));
            }
            if start.other_down(trigger) {
                let other = choose|other: TriggerKey| #[trigger]
                    start.phases.contains_key(other) && other != trigger
                        && start.phases[other].down();
                assert(down(events, n - 1, other));
            }
        }
        let p = since(events, n - 1, trigger);
        if down(events, n - 1, trigger) {
            assert(alone(events, p, n, trigger) <==> alone(events, p, n - 1, trigger)
                && leaves_alone(e, trigger));
        }
    }
}

/// The taps that wait, and when they are due, follow from the events: a registered
/// pattern's tap waits exactly if a release completed it and it has not come to an
/// end since, and its deadline lies one suppression after that release.
pub proof fn waiting_taps_follow_from_the_events(
    m: TapAloneModel,
    events: Seq<(KeyEvent, Instant)>,
    id: u32,
)
    requires
        m.wf(),
        forall|t: TriggerKey| !#[trigger] m.phases.contains_key(t),
        m.patterns.contains_key(id),
        deadlines_fit(m, events),
    ensures
        ({
            let after = laws::run(m, events);
            let pattern = m.patterns[id];
            &&& after.patterns == m.patterns
            &&& match waiting(events, events.len() as int, pattern) {
                Some(r) => {
                    &&& 0 <= r < events.len()
                    &&& after.pending(TapAloneId(id))
                    &&& after.deadline(TapAloneId(id)).nanos == events[r].1.nanos
                        + pattern.double_tap_suppression.nanos
                },
                None => !after.pending(TapAloneId(id)),
            }
        }),
{
    lemma_stands(m, events, events.len() as int, id);
    laws::runs_keep_states_reachable(m, events);
    assert(events.take(events.len() as int) =~= events);
    let pattern = m.patterns[id];
    if let Some(r) = waiting(events, events.len() as int, pattern) {
        assert(events[r].1.nanos + m.patterns[id].double_tap_suppression.nanos <= u128::MAX);
        if down(events, events.len() as int, pattern.trigger) {
            assert(false);
        }
    }
}

/// What fires at a time follows from the events: exactly the registered patterns whose
/// tap waits and whose suppression is over, each once, in the order of their deadlines
/// and of their ids where those are equal.
pub proof fn fired_taps_follow_from_the_events(
    m: TapAloneModel,
    events: Seq<(KeyEvent, Instant)>,
    now: Instant,
    fired: Seq<TapAloneEvent>,
)
    requires
        m.wf(),
        forall|t: TriggerKey| !#[trigger] m.phases.contains_key(t),
        deadlines_fit(m, events),
        laws::run(m, events).fires(now, fired),
    ensures
        forall|i: int|
            0 <= i < fired.len() ==> m.patterns.contains_key((#[trigger] fired[i]).id.0) && waiting(
                events,
                events.len() as int,
                m.patterns[fired[i].id.0],
            ) is Some,
        forall|id: u32| #[trigger]
            m.patterns.contains_key(id) ==> ((exists|i: int|
                0 <= i < fired.len() && (#[trigger] fired[i]).id.0 == id) <==> (waiting(
                events,
                events.len() as int,
                m.patterns[id],
            ) matches Some(r) && events[r].1.nanos + m.patterns[id].double_tap_suppression.nanos
                <= now.nanos)),
        forall|i: int, j: int|
            0 <= i < j < fired.len() ==> {
                let a = m.patterns[(#[trigger] fired[i]).id.0];
                let b = m.patterns[(#[trigger] fired[j]).id.0];
                let due_a = events[waiting(events, events.len() as int, a)->0].1.nanos
                    + a.double_tap_suppression.nanos;
                let due_b = events[waiting(events, events.len() as int, b)->0].1.nanos
                    + b.double_tap_suppression.nanos;
                due_a < due_b || due_a == due_b && fired[i].id.0 < fired[j].id.0
            },
{
    let after = laws::run(m, events);
    laws::runs_keep_states_reachable(m, events);
    assert forall|id: u32| #[trigger] m.patterns.contains_key(id) implies match waiting(
        events,
        events.len() as int,
        m.patterns[id],
    ) {
        Some(r) => after.pending(TapAloneId(id)) && after.deadline(TapAloneId(id)).nanos
            == events[r].1.nanos + m.patterns[id].double_tap_suppression.nanos,
        None => !after.pending(TapAloneId(id)),
    } by {
        waiting_taps_follow_from_the_events(m, events, id);
    }
    assert forall|i: int| 0 <= i < fired.len() implies m.patterns.contains_key(
        (#[trigger] fired[i]).id.0,
    ) && after.pending(TapAloneId(fired[i].id.0)) by {
        assert(after.due(fired[i].id, now));
    }
    assert forall|id: u32| #[trigger] m.patterns.contains_key(id) implies ((exists|i: int|
        0 <= i < fired.len() && (#[trigger] fired[i]).id.0 == id) <==> after.due(
        TapAloneId(id),
        now,
    )) by {
        if after.due(TapAloneId(id), now) {
            let i = choose|i: int|
                0 <= i < fired.len() && (#[trigger] fired[i]).id == TapAloneId(id);
            assert(fired[i].id.0 == id);
        }
        if exists|i: int| 0 <= i < fired.len() && (#[trigger] fired[i]).id.0 == id {
            let i = choose|i: int| 0 <= i < fired.len() && (#[trigger] fired[i]).id.0 == id;
            assert(after.due(fired[i].id, now));
            assert(fired[i].id == TapAloneId(id));
        }
    }
    assert forall|i: int, j: int| 0 <= i < j < fired.len() implies after.fires_before(
        (#[trigger] fired[i]).id,
        (#[trigger] fired[j]).id,
    ) by {}
}

/// A release lets its trigger up, whatever modifiers it reports and whatever phase the
/// trigger was in, and a press leaves it down.
pub proof fn events_take_down_and_let_up(
    m: TapAloneModel,
    event: KeyEvent,
    now: Instant,
    trigger: TriggerKey,
)
    ensures
        ({
            let start = m.drained(now);
            let next = start.after(event, now);
            let is_down = next.phases.contains_key(trigger) && !(next.phases[trigger]
                is Pending);
            let was_down = m.phases.contains_key(trigger) && !(m.phases[trigger] is Pending);
            &&& releases(event, trigger) ==> !is_down
            &&& presses(event, trigger) ==> is_down
            &&& !releases(event, trigger) && !presses(event, trigger) ==> is_down == was_down
        }),
{
    lemma_about(event, trigger);
}

/// A trigger counts as pressed in company exactly if the last event that moved some
/// other trigger was a press.
pub proof fn company_is_what_was_pressed_last(
    m: TapAloneModel,
    events: Seq<(KeyEvent, Instant)>,
    trigger: TriggerKey,
)
    requires
        forall|t: TriggerKey| !#[trigger] m.phases.contains_key(t),
    ensures
        laws::run(m, events).other_down(trigger) <==> exists|other: TriggerKey|
            other != trigger && #[trigger] down(events, events.len() as int, other),
{
    let after = laws::run(m, events);
    assert forall|other: TriggerKey|
        #![trigger after.phases.contains_key(other)]
        #![trigger down(events, events.len() as int, other)]
        (after.phases.contains_key(other) && !(after.phases[other] is Pending)) <==> down(
        events,
        events.len() as int,
        other,
    ) by {
        held_triggers_are_those_pressed_last(m, events, other);
    }
    if after.other_down(trigger) {
        let other = choose|other: TriggerKey| #[trigger]
            after.phases.contains_key(other) && other != trigger && after.phases[other].down();
        assert(down(events, events.len() as int, other));
    }
    if exists|other: TriggerKey|
        other != trigger && #[trigger] down(events, events.len() as int, other) {
        let other = choose|other: TriggerKey|
            other != trigger && #[trigger] down(events, events.len() as int, other);
        assert(after.phases.contains_key(other));
    }
}

/// What one event does to a trigger in any state, such as after patterns have come and
/// gone while keys were down.
pub proof fn one_event_moves_a_trigger_on(
    m: TapAloneModel,
    event: KeyEvent,
    now: Instant,
    trigger: TriggerKey,
)
    ensures
        ({
            let next = m.after(event, now);
            let had = m.phases.contains_key(trigger);
            let there = next.phases.contains_key(trigger);
            let before = m.phases[trigger];
            let phase = next.phases[trigger];
            &&& next.patterns == m.patterns
            &&& next.next_id == m.next_id
            &&& if presses(event, trigger) {
                &&& there
                &&& had && before is Held ==> phase == Phase::Held
                &&& had && (before is Suppressed || before is Pending) ==> phase == Phase::Suppressed
                &&& had && before is Pressed ==> phase is Pressed && phase->Pressed_id == before->Pressed_id
                    && phase->pattern == before->pattern && phase->started_at == before->started_at
                    && phase->interrupted == (before->interrupted || accompanied(event, trigger))
                &&& !had && (forall|id: u32| #[trigger]
                    m.patterns.contains_key(id) ==> m.patterns[id].trigger != trigger) ==> phase
                    == Phase::Held
                &&& !had && (exists|id: u32| #[trigger]
                    m.patterns.contains_key(id) && m.patterns[id].trigger == trigger) ==> {
                    &&& phase is Pressed
                    &&& m.patterns.contains_key(phase->Pressed_id.0)
                    &&& m.patterns[phase->Pressed_id.0] == phase->pattern
                    &&& phase->pattern.trigger == trigger
                    &&& phase->started_at == now
                    &&& phase->interrupted <==> accompanied(event, trigger)
                        || exists|other: TriggerKey| #[trigger]
                        m.phases.contains_key(other) && other != trigger && !(m.phases[other]
                            is Pending)
                }
            } else if releases(event, trigger) {
                &&& !had || before is Held || before is Suppressed ==> !there
                &&& had && before is Pending ==> there && phase == before
                &&& had && before is Pressed ==> {
                    let limit = before->pattern.max_press_duration.nanos;
                    let suppression = before->pattern.double_tap_suppression.nanos;
                    if !before->interrupted && !accompanied(event, trigger) && limit > 0 && now.nanos
                        - before->started_at.nanos < limit {
                        &&& there
                        &&& phase is Pending
                        &&& phase->Pending_id == before->Pressed_id
                        &&& now.nanos + suppression <= u128::MAX ==> phase->emit_at.nanos == now.nanos
                            + suppression
                    } else {
                        !there
                    }
                }
            } else {
                &&& there == had
                &&& had && !(before is Pressed) ==> phase == before
                &&& had && before is Pressed ==> phase is Pressed && phase->Pressed_id == before->Pressed_id
                    && phase->pattern == before->pattern && phase->started_at == before->started_at
                    && phase->interrupted == (before->interrupted || mouse(event) || event.key is Some
                    || event.changed_modifier is Some)
            }
        }),
{
    lemma_about(event, trigger);
    if m.registered(trigger) {
        let id = m.id_for(trigger);
        assert(model::serves(m.patterns, id, trigger));
        assert(m.patterns.contains_key(id));
    }
    if exists|id: u32| #[trigger]
        m.patterns.contains_key(id) && m.patterns[id].trigger == trigger {
        let id = choose|id: u32| #[trigger]
            m.patterns.contains_key(id) && m.patterns[id].trigger == trigger;
        assert(model::serves(m.patterns, id, trigger));
    }
    if m.other_down(trigger) {
        let other = choose|other: TriggerKey| #[trigger]
            m.phases.contains_key(other) && other != trigger && m.phases[other].down();
        assert(!(m.phases[other] is Pending));
    }
    if exists|other: TriggerKey| #[trigger]
        m.phases.contains_key(other) && other != trigger && !(m.phases[other] is Pending) {
        let other = choose|other: TriggerKey| #[trigger]
            m.phases.contains_key(other) && other != trigger && !(m.phases[other] is Pending);
        assert(m.phases[other].down());
    }
}

/// Draining takes away the taps whose deadline has come and nothing else.
pub proof fn draining_ends_what_is_due(m: TapAloneModel, now: Instant, trigger: TriggerKey)
    ensures
        ({
            let next = m.drained(now);
            &&& next.patterns == m.patterns
            &&& next.next_id == m.next_id
            &&& next.phases.contains_key(trigger) <==> m.phases.contains_key(trigger) && !(
            m.phases[trigger] is Pending && m.phases[trigger]->emit_at.nanos <= now.nanos)
            &&& next.phases.contains_key(trigger) ==> next.phases[trigger] == m.phases[trigger]
        }),
{
}

/// An event can be taken in wherever the deadlines of all patterns can be represented.
pub proof fn events_can_be_taken_in(m: TapAloneModel, event: KeyEvent, now: Instant)
    requires
        m.wf(),
        forall|id: u32| #[trigger]
            m.patterns.contains_key(id) ==> now.nanos
                + m.patterns[id].double_tap_suppression.nanos <= u128::MAX,
    ensures
        m.deadline_fits(event, now),
{
    if let Some(trigger) = TriggerKey::of_event(event) {
        if m.phases.contains_key(trigger) {
            assert(m.phase_wf(trigger));
        }
    }
}

/// An event cannot be taken in exactly if it completes a tap whose deadline cannot be
/// represented.
pub proof fn only_deadlines_out_of_range_are_refused(
    m: TapAloneModel,
    event: KeyEvent,
    now: Instant,
)
    ensures
        m.deadline_fits(event, now) <==> forall|trigger: TriggerKey| #[trigger]
            releases(event, trigger) && m.phases.contains_key(trigger) && m.phases[trigger]
                is Pressed && !m.phases[trigger]->interrupted && !accompanied(event, trigger)
                && m.phases[trigger]->pattern.max_press_duration.nanos > 0 && now.nanos
                - m.phases[trigger]->started_at.nanos
                < m.phases[trigger]->pattern.max_press_duration.nanos ==> now.nanos
                + m.phases[trigger]->pattern.double_tap_suppression.nanos <= u128::MAX,
{
    assert forall|trigger: TriggerKey| #[trigger] releases(event, trigger) <==> !model::interruption(
        event,
    ) && TriggerKey::of_event(event) == Some(trigger) && !event.is_key_down by {
        lemma_about(event, trigger);
    }
    if let Some(trigger) = TriggerKey::of_event(event) {
        lemma_about(event, trigger);
        assert(releases(event, trigger) <==> !model::interruption(event) && !event.is_key_down);
    }
}

/// What registering under the next id gives: that id, if it is not in use and no
/// pattern has the trigger, and otherwise a refusal that names the id or the trigger.
/// What keys do meanwhile is not touched.
pub proof fn registration_is_answered(
    m: TapAloneModel,
    pattern: TapAlone,
    r: Result<TapAloneId, Error>,
    next: TapAloneModel,
)
    requires
        m.registers(pattern, r, next),
    ensures
        r is Ok <==> !m.patterns.contains_key(m.next_id) && forall|id: u32| #[trigger]
            m.patterns.contains_key(id) ==> m.patterns[id].trigger != pattern.trigger,
        r matches Ok(id) ==> id.0 == m.next_id && next.patterns == m.patterns.insert(
            m.next_id,
            pattern,
        ),
        r is Err ==> next.patterns == m.patterns && r->Err_0 is TapAloneAlreadyRegistered,
        m.patterns.contains_key(m.next_id) ==> (r->Err_0->TapAloneAlreadyRegistered_0)@ == "id "@ + (
        "TapAloneId("@ + text::decimal(m.next_id as nat) + ")"@),
        r is Err && !m.patterns.contains_key(m.next_id) ==> (
        r->Err_0->TapAloneAlreadyRegistered_0)@ == "trigger "@ + pattern.trigger.shown(),
        next.next_id == (if m.next_id < u32::MAX {
            m.next_id + 1
        } else {
            u32::MAX as int
        }),
        next.phases == m.phases,
{
    lemma_taken(m, pattern.trigger);
}

/// What registering under an id of choice gives, in the same way. The next id ends
/// up above it, if it can.
pub proof fn registration_under_an_id_is_answered(
    m: TapAloneModel,
    id: TapAloneId,
    pattern: TapAlone,
    r: Result<(), Error>,
    next: TapAloneModel,
)
    requires
        m.registers_as(id, pattern, r, next),
    ensures
        r is Ok <==> !m.patterns.contains_key(id.0) && forall|other: u32| #[trigger]
            m.patterns.contains_key(other) ==> m.patterns[other].trigger != pattern.trigger,
        r is Ok ==> next.patterns == m.patterns.insert(id.0, pattern),
        r is Ok ==> next.next_id == (if m.next_id > id.0 {
            m.next_id as int
        } else if id.0 < u32::MAX {
            id.0 + 1
        } else {
            u32::MAX as int
        }),
        r is Err ==> next == m && r->Err_0 is TapAloneAlreadyRegistered,
        m.patterns.contains_key(id.0) ==> (r->Err_0->TapAloneAlreadyRegistered_0)@ == "id "@ + (
        "TapAloneId("@ + text::decimal(id.0 as nat) + ")"@),
        r is Err && !m.patterns.contains_key(id.0) ==> (r->Err_0->TapAloneAlreadyRegistered_0)@
            == "trigger "@ + pattern.trigger.shown(),
        next.phases == m.phases,
{
    lemma_taken(m, pattern.trigger);
}

proof fn lemma_taken(m: TapAloneModel, trigger: TriggerKey)
    ensures
        m.registered(trigger) <==> exists|id: u32| #[trigger]
            m.patterns.contains_key(id) && m.patterns[id].trigger == trigger,
{
    if m.registered(trigger) {
        assert(model::serves(m.patterns, m.id_for(trigger), trigger));
        assert(m.patterns.contains_key(m.id_for(trigger)));
    }
    if exists|id: u32| #[trigger]
        m.patterns.contains_key(id) && m.patterns[id].trigger == trigger {
        let id = choose|id: u32| #[trigger]
            m.patterns.contains_key(id) && m.patterns[id].trigger == trigger;
        assert(model::serves(m.patterns, id, trigger));
    }
}

/// Taking back a registration succeeds exactly if the id is in use, and ends what was
/// under way for its trigger: a waiting tap is gone, and a press comes to nothing. That
/// the trigger is down is still known, and no other trigger is touched.
pub proof fn unregistration_is_answered(
    m: TapAloneModel,
    id: TapAloneId,
    r: Result<(), Error>,
    next: TapAloneModel,
    trigger: TriggerKey,
)
    requires
        m.unregisters(id, r, next),
    ensures
        r is Ok <==> m.patterns.contains_key(id.0),
        r is Ok ==> next.patterns == m.patterns.remove(id.0) && next.next_id == m.next_id,
        r matches Err(e) ==> e == Error::TapAloneNotFound(id) && next == m,
        r is Ok && trigger != m.patterns[id.0].trigger ==> next.phases.contains_key(trigger)
            == m.phases.contains_key(trigger) && next.phases[trigger] == m.phases[trigger],
        r is Ok && trigger == m.patterns[id.0].trigger ==> {
            &&& next.phases.contains_key(trigger) <==> m.phases.contains_key(trigger) && !(
            m.phases[trigger] is Pending)
            &&& next.phases.contains_key(trigger) ==> next.phases[trigger] == Phase::Held
        },
{
}

/// A registered pattern can be looked up, and another cannot. A tap waits for its
/// deadline exactly if its trigger is up after it, and is due once the deadline has come.
pub proof fn lookups_say_what_is_registered(m: TapAloneModel, id: TapAloneId, now: Instant)
    ensures
        m.pattern(id) == (if m.patterns.contains_key(id.0) {
            Some(m.patterns[id.0])
        } else {
            None
        }),
        m.pending(id) <==> m.patterns.contains_key(id.0) && m.phases.contains_key(
            m.patterns[id.0].trigger,
        ) && m.phases[m.patterns[id.0].trigger] is Pending
            && m.phases[m.patterns[id.0].trigger]->Pending_id == id,
        m.pending(id) ==> m.deadline(id) == m.phases[m.patterns[id.0].trigger]->emit_at,
        m.due(id, now) <==> m.pending(id) && m.deadline(id).nanos <= now.nanos,
{
}

/// What fires is each due tap once, by deadline and then by id.
pub proof fn firing_is_by_deadline_and_id(
    m: TapAloneModel,
    now: Instant,
    fired: Seq<TapAloneEvent>,
)
    requires
        m.fires(now, fired),
    ensures
        forall|i: int|
            0 <= i < fired.len() ==> m.pending((#[trigger] fired[i]).id) && m.deadline(
                fired[i].id,
            ).nanos <= now.nanos,
        forall|id: TapAloneId| #[trigger]
            m.pending(id) && m.deadline(id).nanos <= now.nanos ==> exists|i: int|
                0 <= i < fired.len() && (#[trigger] fired[i]).id == id,
        forall|i: int, j: int|
            0 <= i < j < fired.len() ==> {
                let a = (#[trigger] fired[i]).id;
                let b = (#[trigger] fired[j]).id;
                a != b && (m.deadline(a).nanos < m.deadline(b).nanos || m.deadline(a).nanos
                    == m.deadline(b).nanos && a.0 < b.0)
            },
{
    assert forall|i: int| 0 <= i < fired.len() implies m.pending((#[trigger] fired[i]).id)
        && m.deadline(fired[i].id).nanos <= now.nanos by {
        assert(m.due(fired[i].id, now));
    }
    assert forall|id: TapAloneId| #[trigger]
        m.pending(id) && m.deadline(id).nanos <= now.nanos implies exists|i: int|
        0 <= i < fired.len() && (#[trigger] fired[i]).id == id by {
        assert(m.due(id, now));
    }
}

} // verus!
