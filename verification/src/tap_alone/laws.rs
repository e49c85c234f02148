//! What the tap-alone recognizer promises about runs of events.

use vstd::prelude::*;

use crate::time::Instant;
use crate::types::{KeyEvent, TapAlone, TapAloneEvent, TapAloneId, TriggerKey};

use super::model::{self, Phase, TapAloneModel};

verus! {

/// An event that does no more than move one trigger: no mouse activity, and no
/// modifier held besides it.
pub open spec fn plain(event: KeyEvent, trigger: TriggerKey, down: bool) -> bool {
    &&& !model::interruption(event)
    &&& TriggerKey::of_event(event) == Some(trigger)
    &&& event.is_key_down == down
    &&& !model::chorded(event.modifiers, trigger)
}

/// An event that disturbs the press of a trigger: mouse activity, another
/// trigger that moves, or the trigger itself repeated with a modifier.
pub open spec fn disturbs(event: KeyEvent, trigger: TriggerKey) -> bool {
    ||| model::interruption(event)
    ||| TriggerKey::of_event(event) matches Some(other) && other != trigger
    ||| TriggerKey::of_event(event) == Some(trigger) && event.is_key_down && model::chorded(
        event.modifiers,
        trigger,
    )
}

/// A new recognizer is in a state of those that recognizers reach.
pub proof fn initial_state_is_reachable()
    ensures
        TapAloneModel::initial().wf(),
{
}

/// Draining leads from such a state to another.
pub proof fn draining_keeps_states_reachable(m: TapAloneModel, now: Instant)
    requires
        m.wf(),
    ensures
        m.drained(now).wf(),
{
    let next = m.drained(now);
    assert forall|t: TriggerKey| #[trigger] next.phases.contains_key(t) implies next.phase_wf(t) by {
        assert(m.phase_wf(t));
    }
}

/// The state after a run of events, each with its time.
pub open spec fn run(m: TapAloneModel, events: Seq<(KeyEvent, Instant)>) -> TapAloneModel
    decreases events.len(),
{
    if events.len() == 0 {
        m
    } else {
        let (event, at) = events.last();
        run(m, events.drop_last()).drained(at).after(event, at)
    }
}

/// Runs of events lead from such a state to another, and leave the registered
/// patterns as they are.
pub proof fn runs_keep_states_reachable(m: TapAloneModel, events: Seq<(KeyEvent, Instant)>)
    requires
        m.wf(),
    ensures
        run(m, events).wf(),
        run(m, events).patterns == m.patterns,
        run(m, events).next_id == m.next_id,
    decreases events.len(),
{
    if events.len() > 0 {
        let (event, at) = events.last();
        let before = run(m, events.drop_last());
        runs_keep_states_reachable(m, events.drop_last());
        draining_keeps_states_reachable(before, at);
        before.drained(at).lemma_after_wf(event, at);
    }
}

/// A press that lasts as long as its limit, or longer, ends in nothing.
pub proof fn long_press_does_not_fire(
    m: TapAloneModel,
    trigger: TriggerKey,
    release: KeyEvent,
    now: Instant,
)
    requires
        m.wf(),
        m.phase(trigger) matches Some(Phase::Pressed { pattern, started_at, .. })
            && now.nanos_since(started_at) >= pattern.max_press_duration.nanos,
        !model::interruption(release),
        TriggerKey::of_event(release) == Some(trigger),
        !release.is_key_down,
    ensures
        m.drained(now).after(release, now).phase(trigger) is None,
{
}

/// What disturbs a press marks it as interrupted.
pub proof fn disturbance_interrupts_a_press(
    m: TapAloneModel,
    trigger: TriggerKey,
    event: KeyEvent,
    now: Instant,
)
    requires
        m.wf(),
        m.phase(trigger) is Some,
        m.phases[trigger] is Pressed,
        disturbs(event, trigger),
    ensures
        m.drained(now).after(event, now).phase(trigger) == Some(m.phases[trigger].disturbed()),
{
}

/// An interrupted press stays interrupted through every event until the trigger
/// goes up, and then nothing is left of it.
pub proof fn interrupted_press_never_fires(
    m: TapAloneModel,
    trigger: TriggerKey,
    event: KeyEvent,
    now: Instant,
)
    requires
        m.wf(),
        m.phase(trigger) matches Some(phase) && phase is Pressed && phase == phase.disturbed(),
    ensures
        ({
            let next = m.drained(now).after(event, now);
            if !model::interruption(event) && TriggerKey::of_event(event) == Some(trigger)
                && !event.is_key_down {
                next.phase(trigger) is None
            } else {
                next.phase(trigger) == m.phase(trigger)
            }
        }),
{
}

/// A release with a modifier held ends a press in nothing.
pub proof fn chorded_release_does_not_fire(
    m: TapAloneModel,
    trigger: TriggerKey,
    release: KeyEvent,
    now: Instant,
)
    requires
        m.wf(),
        m.phase(trigger) is Some,
        m.phases[trigger] is Pressed,
        !model::interruption(release),
        TriggerKey::of_event(release) == Some(trigger),
        !release.is_key_down,
        model::chorded(release.modifiers, trigger),
    ensures
        m.drained(now).after(release, now).phase(trigger) is None,
{
}

/// A trigger that goes down while another is down, or with a modifier held,
/// starts a press that is interrupted from the beginning.
pub proof fn press_in_company_is_interrupted(
    m: TapAloneModel,
    trigger: TriggerKey,
    press: KeyEvent,
    now: Instant,
)
    requires
        m.wf(),
        m.phase(trigger) is None,
        m.registered(trigger),
        !model::interruption(press),
        TriggerKey::of_event(press) == Some(trigger),
        press.is_key_down,
        m.other_down(trigger) || model::chorded(press.modifiers, trigger),
    ensures
        ({
            let next = m.drained(now).after(press, now);
            next.phase(trigger) matches Some(phase) && phase is Pressed && phase
                == phase.disturbed()
        }),
{
    let start = m.drained(now);
    if m.other_down(trigger) {
        let other = choose|other: TriggerKey| #[trigger]
            m.phases.contains_key(other) && other != trigger && m.phases[other].down();
        assert(start.phases.contains_key(other));
    }
    let id = m.id_for(trigger);
    assert(model::serves(start.patterns, id, trigger));
}

/// A key that repeats while it is held, with no modifier, leaves its press as it is.
pub proof fn key_repeat_changes_nothing(
    m: TapAloneModel,
    trigger: TriggerKey,
    repeat: KeyEvent,
    now: Instant,
)
    requires
        m.wf(),
        m.phase(trigger) is Some,
        m.phases[trigger].down(),
        plain(repeat, trigger, true),
    ensures
        m.drained(now).after(repeat, now).phase(trigger) == m.phase(trigger),
{
}

/// The second press of a double tap stays one through all events in which the
/// trigger stays down.
pub proof fn suppressed_press_stays_suppressed(
    m: TapAloneModel,
    trigger: TriggerKey,
    events: Seq<(KeyEvent, Instant)>,
)
    requires
        m.wf(),
        m.phase(trigger) == Some(Phase::Suppressed),
        forall|i: int|
            0 <= i < events.len() ==> ((#[trigger] events[i]).0.is_key_down || model::interruption(
                events[i].0,
            ) || TriggerKey::of_event(events[i].0) != Some(trigger)),
    ensures
        run(m, events).phase(trigger) == Some(Phase::Suppressed),
    decreases events.len(),
{
    if events.len() > 0 {
        let fewer = events.drop_last();
        assert forall|i: int| 0 <= i < fewer.len() implies ((#[trigger] fewer[i]).0.is_key_down
            || model::interruption(fewer[i].0) || TriggerKey::of_event(fewer[i].0) != Some(
            trigger,
        )) by {
            assert(fewer[i] == events[i]);
        }
        suppressed_press_stays_suppressed(m, trigger, fewer);
        let last = events[events.len() - 1];
        assert(run(m, events) == run(m, fewer).drained(last.1).after(last.0, last.1));
    }
}

/// A second press before the deadline takes back the tap that waits for it, and
/// the release of that press is no tap either, whatever happens meanwhile.
pub proof fn double_tap_fires_nothing(
    m: TapAloneModel,
    id: TapAloneId,
    press: KeyEvent,
    pressed_at: Instant,
    events: Seq<(KeyEvent, Instant)>,
    release: KeyEvent,
    released_at: Instant,
)
    requires
        m.wf(),
        m.pending(id),
        pressed_at.nanos < m.deadline(id).nanos,
        ({
            let trigger = m.patterns[id.0].trigger;
            &&& !model::interruption(press)
            &&& TriggerKey::of_event(press) == Some(trigger)
            &&& press.is_key_down
            &&& forall|i: int|
                0 <= i < events.len() ==> ((#[trigger] events[i]).0.is_key_down
                    || model::interruption(events[i].0) || TriggerKey::of_event(events[i].0)
                    != Some(trigger))
            &&& !model::interruption(release)
            &&& TriggerKey::of_event(release) == Some(trigger)
            &&& !release.is_key_down
        }),
    ensures
        ({
            let trigger = m.patterns[id.0].trigger;
            let held = m.drained(pressed_at).after(press, pressed_at);
            let still_held = run(held, events);
            let done = still_held.drained(released_at).after(release, released_at);
            &&& !m.due(id, pressed_at)
            &&& held.phase(trigger) == Some(Phase::Suppressed)
            &&& !held.pending(id)
            &&& !still_held.pending(id)
            &&& done.phase(trigger) is None
            &&& !done.pending(id)
        }),
{
    let trigger = m.patterns[id.0].trigger;
    let held = m.drained(pressed_at).after(press, pressed_at);
    assert(held.phases[trigger] is Suppressed);
    draining_keeps_states_reachable(m, pressed_at);
    m.drained(pressed_at).lemma_after_wf(press, pressed_at);
    suppressed_press_stays_suppressed(held, trigger, events);
    runs_keep_states_reachable(held, events);
}

/// A tap that waits for its deadline is not touched by what other triggers or the mouse do.
pub proof fn waiting_tap_is_not_disturbed(
    m: TapAloneModel,
    id: TapAloneId,
    event: KeyEvent,
    now: Instant,
)
    requires
        m.wf(),
        m.pending(id),
        now.nanos < m.deadline(id).nanos,
        model::interruption(event) || TriggerKey::of_event(event) != Some(
            m.patterns[id.0].trigger,
        ),
    ensures
        ({
            let next = m.drained(now).after(event, now);
            next.pending(id) && next.deadline(id) == m.deadline(id)
        }),
{
}

/// A key that repeats any number of times leaves its press as it is.
pub proof fn key_repeats_change_nothing(
    m: TapAloneModel,
    trigger: TriggerKey,
    repeats: Seq<(KeyEvent, Instant)>,
)
    requires
        m.wf(),
        m.phase(trigger) is Some,
        m.phases[trigger].down(),
        forall|i: int| 0 <= i < repeats.len() ==> plain((#[trigger] repeats[i]).0, trigger, true),
    ensures
        run(m, repeats).phase(trigger) == m.phase(trigger),
    decreases repeats.len(),
{
    if repeats.len() > 0 {
        let fewer = repeats.drop_last();
        assert forall|i: int| 0 <= i < fewer.len() implies plain(
            (#[trigger] fewer[i]).0,
            trigger,
            true,
        ) by {
            assert(fewer[i] == repeats[i]);
        }
        key_repeats_change_nothing(m, trigger, fewer);
        runs_keep_states_reachable(m, fewer);
        assert(plain(repeats.last().0, trigger, true));
        key_repeat_changes_nothing(run(m, fewer), trigger, repeats.last().0, repeats.last().1);
    }
}

/// A tap that waits for its deadline still waits for it after any events before
/// then that are not of its trigger.
pub proof fn waiting_tap_outlasts_other_events(
    m: TapAloneModel,
    id: TapAloneId,
    events: Seq<(KeyEvent, Instant)>,
)
    requires
        m.wf(),
        m.pending(id),
        forall|i: int|
            0 <= i < events.len() ==> (#[trigger] events[i]).1.nanos < m.deadline(id).nanos && (
            model::interruption(events[i].0) || TriggerKey::of_event(events[i].0) != Some(
                m.patterns[id.0].trigger,
            )),
    ensures
        run(m, events).pending(id),
        run(m, events).deadline(id) == m.deadline(id),
    decreases events.len(),
{
    if events.len() > 0 {
        let fewer = events.drop_last();
        assert forall|i: int| 0 <= i < fewer.len() implies (#[trigger] fewer[i]).1.nanos
            < m.deadline(id).nanos && (model::interruption(fewer[i].0) || TriggerKey::of_event(
            fewer[i].0,
        ) != Some(m.patterns[id.0].trigger)) by {
            assert(fewer[i] == events[i]);
        }
        waiting_tap_outlasts_other_events(m, id, fewer);
        runs_keep_states_reachable(m, fewer);
        let last = events[events.len() - 1];
        waiting_tap_is_not_disturbed(run(m, fewer), id, last.0, last.1);
    }
}

/// A press and release of a registered trigger, shorter than its limit, with
/// nothing else down, fires its tap exactly from the end of the suppression on:
/// however often the key repeats meanwhile, and whatever else happens until then
/// but that the trigger moves again.
pub proof fn short_uninterrupted_tap_fires(
    m: TapAloneModel,
    id: TapAloneId,
    press: KeyEvent,
    pressed_at: Instant,
    repeats: Seq<(KeyEvent, Instant)>,
    release: KeyEvent,
    released_at: Instant,
    others: Seq<(KeyEvent, Instant)>,
    now: Instant,
)
    requires
        m.wf(),
        m.patterns.contains_key(id.0),
        ({
            let pattern = m.patterns[id.0];
            let deadline = released_at.nanos + pattern.double_tap_suppression.nanos;
            &&& m.phase(pattern.trigger) is None
            &&& !m.other_down(pattern.trigger)
            &&& plain(press, pattern.trigger, true)
            &&& forall|i: int|
                0 <= i < repeats.len() ==> plain((#[trigger] repeats[i]).0, pattern.trigger, true)
            &&& plain(release, pattern.trigger, false)
            &&& released_at.nanos_since(pressed_at) < pattern.max_press_duration.nanos
            &&& deadline <= u128::MAX
            &&& forall|i: int|
                0 <= i < others.len() ==> (#[trigger] others[i]).1.nanos < deadline && (
                model::interruption(others[i].0) || TriggerKey::of_event(others[i].0) != Some(
                    pattern.trigger,
                ))
        }),
    ensures
        ({
            let pressed = m.drained(pressed_at).after(press, pressed_at);
            let held = run(pressed, repeats);
            let released = held.drained(released_at).after(release, released_at);
            let done = run(released, others);
            &&& !m.pending(id)
            &&& !held.pending(id)
            &&& done.pending(id)
            &&& done.due(id, now) <==> now.nanos >= released_at.nanos
                + m.patterns[id.0].double_tap_suppression.nanos
        }),
{
    let pattern = m.patterns[id.0];
    let trigger = pattern.trigger;
    let start = m.drained(pressed_at);
    assert(model::serves(start.patterns, id.0, trigger));
    assert(start.id_for(trigger) == id.0);
    assert(!start.other_down(trigger)) by {
        if start.other_down(trigger) {
            let other = choose|other: TriggerKey| #[trigger]
                start.phases.contains_key(other) && other != trigger && start.phases[other].down();
            assert(m.phases.contains_key(other));
        }
    }
    let pressed = start.after(press, pressed_at);
    draining_keeps_states_reachable(m, pressed_at);
    start.lemma_after_wf(press, pressed_at);
    assert(pressed.phases[trigger] == (Phase::Pressed {
        id,
        pattern,
        started_at: pressed_at,
        interrupted: false,
    }));
    key_repeats_change_nothing(pressed, trigger, repeats);
    let held = run(pressed, repeats);
    runs_keep_states_reachable(pressed, repeats);
    draining_keeps_states_reachable(held, released_at);
    held.drained(released_at).lemma_after_wf(release, released_at);
    let released = held.drained(released_at).after(release, released_at);
    assert(released.phases[trigger] == (Phase::Pending {
        id,
        emit_at: released_at.plus(pattern.double_tap_suppression),
    }));
    waiting_tap_outlasts_other_events(released, id, others);
    runs_keep_states_reachable(released, others);
}

/// Once a press has been disturbed, no events in which the trigger stays down
/// make its release a tap.
pub proof fn disturbed_press_comes_to_nothing(
    m: TapAloneModel,
    trigger: TriggerKey,
    disturbance: (KeyEvent, Instant),
    events: Seq<(KeyEvent, Instant)>,
    release: KeyEvent,
    now: Instant,
)
    requires
        m.wf(),
        m.phase(trigger) is Some,
        m.phases[trigger] is Pressed,
        disturbs(disturbance.0, trigger),
        forall|i: int|
            0 <= i < events.len() ==> ((#[trigger] events[i]).0.is_key_down || model::interruption(
                events[i].0,
            ) || TriggerKey::of_event(events[i].0) != Some(trigger)),
        !model::interruption(release),
        TriggerKey::of_event(release) == Some(trigger),
        !release.is_key_down,
    ensures
        ({
            let disturbed = m.drained(disturbance.1).after(disturbance.0, disturbance.1);
            let held = run(disturbed, events);
            &&& held.phase(trigger) == Some(m.phases[trigger].disturbed())
            &&& held.drained(now).after(release, now).phase(trigger) is None
        }),
    decreases events.len(),
{
    let disturbed = m.drained(disturbance.1).after(disturbance.0, disturbance.1);
    disturbance_interrupts_a_press(m, trigger, disturbance.0, disturbance.1);
    draining_keeps_states_reachable(m, disturbance.1);
    m.drained(disturbance.1).lemma_after_wf(disturbance.0, disturbance.1);
    if events.len() > 0 {
        let fewer = events.drop_last();
        assert forall|i: int| 0 <= i < fewer.len() implies ((#[trigger] fewer[i]).0.is_key_down
            || model::interruption(fewer[i].0) || TriggerKey::of_event(fewer[i].0) != Some(
            trigger,
        )) by {
            assert(fewer[i] == events[i]);
        }
        disturbed_press_comes_to_nothing(m, trigger, disturbance, fewer, release, now);
        runs_keep_states_reachable(disturbed, fewer);
        let last = events[events.len() - 1];
        interrupted_press_never_fires(run(disturbed, fewer), trigger, last.0, last.1);
    }
    runs_keep_states_reachable(disturbed, events);
    interrupted_press_never_fires(run(disturbed, events), trigger, release, now);
}

/// The taps that are due make one sequence only.
pub proof fn fired_taps_are_determined(
    m: TapAloneModel,
    now: Instant,
    a: Seq<TapAloneEvent>,
    b: Seq<TapAloneEvent>,
)
    requires
        m.fires(now, a),
        m.fires(now, b),
    ensures
        a == b,
{
    lemma_fired_prefix(m, now, a, b, a.len() as int);
    if a.len() < b.len() {
        let id = b[a.len() as int].id;
        assert(m.due(id, now));
        let i = choose|i: int| 0 <= i < a.len() && (#[trigger] a[i]).id == id;
        assert(m.fires_before(b[i].id, b[a.len() as int].id));
    }
    if b.len() < a.len() {
        lemma_fired_prefix(m, now, b, a, b.len() as int);
        let id = a[b.len() as int].id;
        assert(m.due(id, now));
        let i = choose|i: int| 0 <= i < b.len() && (#[trigger] b[i]).id == id;
        assert(m.fires_before(a[i].id, a[b.len() as int].id));
    }
    assert(a =~= b);
}

proof fn lemma_fired_prefix(
    m: TapAloneModel,
    now: Instant,
    a: Seq<TapAloneEvent>,
    b: Seq<TapAloneEvent>,
    n: int,
)
    requires
        m.fires(now, a),
        m.fires(now, b),
        0 <= n <= a.len(),
    ensures
        forall|i: int| 0 <= i < n && i < b.len() ==> #[trigger] a[i] == b[i],
        n <= b.len(),
    decreases n,
{
    if n > 0 {
        let k = n - 1;
        lemma_fired_prefix(m, now, a, b, k);
        assert(m.due(a[k].id, now));
        let j = choose|j: int| 0 <= j < b.len() && (#[trigger] b[j]).id == a[k].id;
        if j < k {
            assert(a[j] == b[j]);
            assert(m.fires_before(a[j].id, a[k].id));
        }
        assert(k < b.len());
        assert(m.due(b[k].id, now));
        let i = choose|i: int| 0 <= i < a.len() && (#[trigger] a[i]).id == b[k].id;
        if i < k {
            assert(a[i] == b[i]);
            assert(m.fires_before(b[i].id, b[k].id));
        }
        if k < i && k < j {
            assert(m.fires_before(a[k].id, a[i].id));
            assert(m.fires_before(b[k].id, b[j].id));
        }
        if i == k || j == k {
            assert(a[k].id == b[k].id);
        }
    }
}

/// Nothing holds a tap back: the first event or drain at its deadline or later
/// fires it, whatever the event is, and then it waits no longer.
pub proof fn due_tap_is_not_held_back(
    m: TapAloneModel,
    id: TapAloneId,
    now: Instant,
    fired: Seq<TapAloneEvent>,
)
    requires
        m.wf(),
        m.pending(id),
        m.deadline(id).nanos <= now.nanos,
        m.fires(now, fired),
    ensures
        exists|i: int| 0 <= i < fired.len() && (#[trigger] fired[i]).id == id,
        !m.drained(now).pending(id),
        m.drained(now).phase(m.patterns[id.0].trigger) is None,
{
    assert(m.due(id, now));
}

/// A tap fires once: what has fired does not fire again.
pub proof fn tap_fires_once(
    m: TapAloneModel,
    now: Instant,
    later: Instant,
    first: Seq<TapAloneEvent>,
    second: Seq<TapAloneEvent>,
)
    requires
        m.wf(),
        m.fires(now, first),
        m.drained(now).fires(later, second),
    ensures
        later.nanos <= now.nanos ==> second.len() == 0,
        forall|i: int, j: int|
            0 <= i < first.len() && 0 <= j < second.len() ==> (#[trigger] first[i]).id != (
            #[trigger] second[j]).id,
{
    let next = m.drained(now);
    assert forall|i: int, j: int| 0 <= i < first.len() && 0 <= j < second.len() implies (
    #[trigger] first[i]).id != (#[trigger] second[j]).id by {
        assert(m.due(first[i].id, now));
        assert(next.due(second[j].id, later));
    }
    if later.nanos <= now.nanos && second.len() > 0 {
        assert(next.due(second[0].id, later));
    }
}

/// Nothing fires before the first deadline.
pub proof fn nothing_fires_before_the_first_deadline(
    m: TapAloneModel,
    first: Instant,
    now: Instant,
    fired: Seq<TapAloneEvent>,
)
    requires
        m.wf(),
        forall|id: TapAloneId| #[trigger]
            m.pending(id) ==> first.nanos <= m.deadline(id).nanos,
        now.nanos < first.nanos,
        m.fires(now, fired),
    ensures
        fired.len() == 0,
        m.drained(now) == m,
{
    if fired.len() > 0 {
        assert(m.due(fired[0].id, now));
    }
    assert forall|t: TriggerKey| #[trigger] m.phases.contains_key(t) implies !m.phases[t].expired(
        now,
    ) by {
        assert(m.phase_wf(t));
        if let Phase::Pending { id, .. } = m.phases[t] {
            assert(m.pending(id));
        }
    }
    assert(m.drained(now).phases =~= m.phases);
}

/// A pattern that is not registered has no tap, and no event gives it one.
pub proof fn unregistered_pattern_never_fires(
    m: TapAloneModel,
    id: TapAloneId,
    event: KeyEvent,
    now: Instant,
    fired: Seq<TapAloneEvent>,
)
    requires
        m.wf(),
        !m.patterns.contains_key(id.0),
        m.fires(now, fired),
    ensures
        forall|i: int| 0 <= i < fired.len() ==> (#[trigger] fired[i]).id != id,
        !m.drained(now).after(event, now).patterns.contains_key(id.0),
{
    assert forall|i: int| 0 <= i < fired.len() implies (#[trigger] fired[i]).id != id by {
        assert(m.due(fired[i].id, now));
    }
}

/// Taking back a registration forgets the pattern and what was under way for its
/// trigger, and leaves every other pattern and trigger as it was.
pub proof fn unregistering_forgets_one_pattern(m: TapAloneModel, id: TapAloneId)
    requires
        m.wf(),
        m.patterns.contains_key(id.0),
    ensures
        ({
            let next = m.without_pattern(id.0);
            let trigger = m.patterns[id.0].trigger;
            &&& next.wf()
            &&& next.pattern(id) is None
            &&& !next.registered(trigger)
            &&& next.phase(trigger) is None || next.phase(trigger) == Some(Phase::Held)
            &&& next.phase(trigger) is Some <==> m.phase(trigger) is Some
                && m.phases[trigger].down()
            &&& forall|other: TapAloneId| other != id ==> #[trigger] next.pattern(other)
                == m.pattern(other)
            &&& forall|t: TriggerKey| t != trigger ==> #[trigger] next.phase(t) == m.phase(t)
        }),
{
    let next = m.without_pattern(id.0);
    let trigger = m.patterns[id.0].trigger;
    if next.registered(trigger) {
        let other = next.id_for(trigger);
        assert(m.patterns.contains_key(other));
        assert(m.patterns.contains_key(id.0));
    }
    assert forall|t: TriggerKey| #[trigger] next.phases.contains_key(t) implies next.phase_wf(t) by {
        assert(m.phase_wf(t));
        if t != trigger && m.registered(t) {
            assert(model::serves(next.patterns, m.id_for(t), t));
        }
    }
}

/// Registering a pattern under a free id for a free trigger leads from a state that
/// recognizers reach to another, with one pattern more, and so does using up an id.
pub proof fn registering_keeps_states_reachable(
    m: TapAloneModel,
    id: TapAloneId,
    pattern: TapAlone,
)
    requires
        m.wf(),
        !m.patterns.contains_key(id.0),
        !m.registered(pattern.trigger),
    ensures
        m.with_pattern(id.0, pattern).wf(),
        m.with_pattern(id.0, pattern).registered(pattern.trigger),
        m.patterns.dom().finite() ==> m.with_pattern(id.0, pattern).patterns.len()
            == m.patterns.len() + 1,
        (TapAloneModel { next_id: TapAloneModel::id_after(m.next_id), ..m }).wf(),
{
    let next = m.with_pattern(id.0, pattern);
    assert(model::serves(next.patterns, id.0, pattern.trigger));
    assert forall|a: u32, b: u32| #[trigger]
        next.patterns.contains_key(a) && #[trigger] next.patterns.contains_key(b)
            && next.patterns[a].trigger == next.patterns[b].trigger implies a == b by {
        if a == id.0 && b != id.0 {
            assert(model::serves(m.patterns, b, pattern.trigger));
        }
        if b == id.0 && a != id.0 {
            assert(model::serves(m.patterns, a, pattern.trigger));
        }
    }
    let moved_on = TapAloneModel { next_id: TapAloneModel::id_after(m.next_id), ..m };
    assert forall|t: TriggerKey| #[trigger] m.phases.contains_key(t) implies next.phase_wf(t)
        && moved_on.phase_wf(t) by {
        assert(m.phase_wf(t));
        if m.registered(t) {
            assert(model::serves(next.patterns, m.id_for(t), t));
            assert(model::serves(moved_on.patterns, m.id_for(t), t));
        }
    }
}

/// Registering a pattern under a free id for a free trigger and taking it back leaves
/// everything but the next id as it was.
pub proof fn unregistering_undoes_registering(m: TapAloneModel, id: TapAloneId, pattern: TapAlone)
    requires
        m.wf(),
        !m.patterns.contains_key(id.0),
        !m.registered(pattern.trigger),
    ensures
        m.with_pattern(id.0, pattern).pattern(id) == Some(pattern),
        m.with_pattern(id.0, pattern).without_pattern(id.0) == (TapAloneModel {
            next_id: m.with_pattern(id.0, pattern).next_id,
            ..m
        }),
{
    let after = m.with_pattern(id.0, pattern).without_pattern(id.0);
    let trigger = pattern.trigger;
    if m.phases.contains_key(trigger) {
        assert(m.phase_wf(trigger));
        match m.phases[trigger] {
            Phase::Pressed { id: held, .. } => {
                assert(model::serves(m.patterns, held.0, trigger));
            },
            Phase::Pending { id: waiting, .. } => {
                assert(model::serves(m.patterns, waiting.0, trigger));
            },
            _ => {},
        }
    }
    assert(after.patterns =~= m.patterns);
    assert(after.phases =~= m.phases);
}

/// Until ids run out, the next id is free, and above every id ever registered.
pub proof fn next_id_is_fresh(m: TapAloneModel, id: TapAloneId, pattern: TapAlone)
    requires
        m.wf(),
    ensures
        m.next_id < u32::MAX ==> !m.patterns.contains_key(m.next_id),
        m.with_pattern(id.0, pattern).next_id >= m.next_id,
        m.with_pattern(id.0, pattern).next_id > id.0 || id.0 == u32::MAX,
        m.without_pattern(id.0).next_id == m.next_id,
{
}

} // verus!
