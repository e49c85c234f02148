//! What the tap-pattern recognizer promises about runs of events.

use vstd::prelude::*;

use crate::time::Instant;
use crate::types::{KeyEvent, TapPattern, TapPatternEvent, TapPatternId, TriggerKey};

use super::model::{self, TapPatternModel};

verus! {

/// An event that moves a trigger.
pub open spec fn moves(event: KeyEvent, trigger: TriggerKey, down: bool) -> bool {
    TriggerKey::of_event(event) == Some(trigger) && event.is_key_down == down
}

/// A new recognizer is in a state of those that recognizers reach, and events
/// lead from such a state to another.
pub proof fn states_stay_reachable(m: TapPatternModel, event: KeyEvent, now: Instant)
    requires
        m.wf(),
    ensures
        TapPatternModel::initial().wf(),
        m.after(event, now).wf(),
{
}

/// An event gives rise to one pattern event at the most.
pub proof fn at_most_one_pattern_completes(m: TapPatternModel, event: KeyEvent, now: Instant)
    ensures
        m.emitted(event, now).len() <= 1,
{
}

/// A release is no tap: it emits nothing and leaves the taps under way alone.
pub proof fn release_is_no_tap(m: TapPatternModel, event: KeyEvent, now: Instant)
    requires
        !event.is_key_down,
    ensures
        m.emitted(event, now).len() == 0,
        m.after(event, now).active == m.active,
{
}

/// A key that repeats while it is held changes nothing.
pub proof fn key_repeat_is_no_tap(
    m: TapPatternModel,
    trigger: TriggerKey,
    event: KeyEvent,
    now: Instant,
)
    requires
        m.held.contains(trigger),
        moves(event, trigger, true),
    ensures
        m.emitted(event, now).len() == 0,
        m.after(event, now) == m,
{
    assert(m.held.insert(trigger) =~= m.held);
}

/// The state after a run of events, each with its time.
pub open spec fn run(m: TapPatternModel, events: Seq<(KeyEvent, Instant)>) -> TapPatternModel
    decreases events.len(),
{
    if events.len() == 0 {
        m
    } else {
        let (event, at) = events.last();
        run(m, events.drop_last()).after(event, at)
    }
}

/// Whether a run of events presses nothing: it holds releases and repeats only,
/// and events that move no trigger.
pub open spec fn quiet(m: TapPatternModel, events: Seq<(KeyEvent, Instant)>) -> bool {
    forall|i: int|
        0 <= i < events.len() ==> run(m, events.take(i)).press((#[trigger] events[i]).0) is None
}

/// Events that press nothing emit nothing, and leave the patterns and the taps
/// under way as they are.
pub proof fn quiet_events_change_no_taps(m: TapPatternModel, events: Seq<(KeyEvent, Instant)>)
    requires
        quiet(m, events),
    ensures
        run(m, events).patterns == m.patterns,
        run(m, events).next_id == m.next_id,
        run(m, events).active == m.active,
        forall|i: int|
            0 <= i < events.len() ==> run(m, events.take(i)).emitted(
                (#[trigger] events[i]).0,
                events[i].1,
            ).len() == 0,
    decreases events.len(),
{
    if events.len() > 0 {
        let fewer = events.drop_last();
        assert forall|i: int| 0 <= i < fewer.len() implies run(m, fewer.take(i)).press(
            (#[trigger] fewer[i]).0,
        ) is None by {
            assert(fewer[i] == events[i]);
            assert(fewer.take(i) =~= events.take(i));
        }
        quiet_events_change_no_taps(m, fewer);
        let last = events[events.len() - 1];
        assert(events.take(events.len() - 1) =~= fewer);
        assert(run(m, fewer).press(last.0) is None);
    }
}

/// Two presses of a trigger with a double-tap pattern, the second within the
/// timeout of the first and with no other press between them, emit the pattern's
/// event at the second press and not before. The taps that made it do not count
/// again.
pub proof fn double_tap_within_timeout_emits_once(
    m: TapPatternModel,
    id: TapPatternId,
    first: KeyEvent,
    first_at: Instant,
    between: Seq<(KeyEvent, Instant)>,
    second: KeyEvent,
    second_at: Instant,
)
    requires
        m.wf(),
        m.patterns.contains_key(id.0),
        m.patterns[id.0].valid(),
        ({
            let pattern = m.patterns[id.0];
            &&& !m.held.contains(pattern.trigger)
            &&& !(m.active matches Some(active) && active.trigger == pattern.trigger)
            &&& moves(first, pattern.trigger, true)
            &&& quiet(m.after(first, first_at), between)
            &&& !run(m.after(first, first_at), between).held.contains(pattern.trigger)
            &&& moves(second, pattern.trigger, true)
            &&& first_at.nanos <= second_at.nanos
            &&& second_at.nanos - first_at.nanos <= pattern.timeout.nanos
        }),
    ensures
        ({
            let pressed = m.after(first, first_at);
            let released = run(pressed, between);
            &&& m.emitted(first, first_at).len() == 0
            &&& forall|i: int|
                0 <= i < between.len() ==> run(pressed, between.take(i)).emitted(
                    (#[trigger] between[i]).0,
                    between[i].1,
                ).len() == 0
            &&& released.emitted(second, second_at) == seq![
                TapPatternEvent { id, tap_count: 2, is_key_down: true },
            ]
            &&& released.after(second, second_at).active is None
        }),
{
    let trigger = m.patterns[id.0].trigger;
    lemma_pattern_for(m, id.0);
    let pressed = m.after(first, first_at);
    let released = run(pressed, between);
    quiet_events_change_no_taps(pressed, between);
    lemma_pattern_for(released, id.0);
    assert(released.taps(trigger, second_at) == 2);
}

/// A press later than the timeout does not complete a double tap, but starts anew.
pub proof fn slow_second_tap_emits_nothing(
    m: TapPatternModel,
    id: TapPatternId,
    press: KeyEvent,
    now: Instant,
)
    requires
        m.wf(),
        m.patterns.contains_key(id.0),
        m.patterns[id.0].valid(),
        moves(press, m.patterns[id.0].trigger, true),
        !m.held.contains(m.patterns[id.0].trigger),
        m.active matches Some(active) && now.nanos - active.last_tap_at.nanos
            > m.patterns[id.0].timeout.nanos,
    ensures
        m.emitted(press, now).len() == 0,
        m.after(press, now).active matches Some(active) && active.trigger
            == m.patterns[id.0].trigger && active.count == 1 && active.last_tap_at == now,
{
    lemma_pattern_for(m, id.0);
}

/// A press of another trigger ends the taps under way: the next press of the
/// first trigger does not complete its double tap.
pub proof fn different_trigger_interrupts(
    m: TapPatternModel,
    id: TapPatternId,
    other: TriggerKey,
    interruption: KeyEvent,
    interrupted_at: Instant,
    press: KeyEvent,
    now: Instant,
)
    requires
        m.wf(),
        m.patterns.contains_key(id.0),
        m.patterns[id.0].valid(),
        other != m.patterns[id.0].trigger,
        !m.held.contains(other),
        moves(interruption, other, true),
        moves(press, m.patterns[id.0].trigger, true),
    ensures
        ({
            let next = m.after(interruption, interrupted_at);
            &&& !(next.active matches Some(active) && active.trigger == m.patterns[id.0].trigger)
            &&& next.emitted(press, now).len() == 0
        }),
{
    let trigger = m.patterns[id.0].trigger;
    let next = m.after(interruption, interrupted_at);
    lemma_pattern_for(next, id.0);
}

/// Whether only double taps are registered, and the taps under way are what
/// such patterns leave.
pub open spec fn double_taps_only(m: TapPatternModel) -> bool {
    &&& forall|id: u32| #[trigger] m.patterns.contains_key(id) ==> m.patterns[id].valid()
    &&& m.active matches Some(active) ==> active.count == 1
}

/// Where every registered pattern is a double tap, every event counts two taps,
/// and carries the id of a registered pattern.
pub proof fn valid_patterns_emit_double_taps(m: TapPatternModel, event: KeyEvent, now: Instant)
    requires
        m.wf(),
        double_taps_only(m),
    ensures
        double_taps_only(m.after(event, now)),
        forall|i: int|
            0 <= i < m.emitted(event, now).len() ==> (#[trigger] m.emitted(event, now)[i]).tap_count
                == 2 && m.patterns.contains_key(m.emitted(event, now)[i].id.0),
{
    if let Some(trigger) = m.press(event) {
        if m.registered(trigger) {
            assert(model::serves(m.patterns, m.id_for(trigger), trigger));
        }
    }
}

/// Only registered patterns are emitted, and each by a press of its own trigger.
pub proof fn emitted_patterns_are_registered(
    m: TapPatternModel,
    event: KeyEvent,
    now: Instant,
    i: int,
)
    requires
        m.wf(),
        0 <= i < m.emitted(event, now).len(),
    ensures
        m.patterns.contains_key(m.emitted(event, now)[i].id.0),
        m.press(event) == Some(m.patterns[m.emitted(event, now)[i].id.0].trigger),
{
    if let Some(trigger) = m.press(event) {
        if m.registered(trigger) {
            assert(model::serves(m.patterns, m.id_for(trigger), trigger));
        }
    }
}

/// Registering a pattern under a free id for a free trigger leads from a state that
/// recognizers reach to another, with one pattern more, and so does using up an id.
pub proof fn registering_keeps_states_reachable(
    m: TapPatternModel,
    id: TapPatternId,
    pattern: TapPattern,
)
    requires
        m.wf(),
        !m.patterns.contains_key(id.0),
        !m.registered(pattern.trigger),
    ensures
        m.with_pattern(id.0, pattern).wf(),
        m.with_pattern(id.0, pattern).registered(pattern.trigger),
        m.patterns.dom().finite() ==> m.with_pattern(id.0, pattern).patterns.len()
            == m.patterns.len() + 1,
        (TapPatternModel { next_id: TapPatternModel::id_after(m.next_id), ..m }).wf(),
{
    let next = m.with_pattern(id.0, pattern);
    assert(model::serves(next.patterns, id.0, pattern.trigger));
    assert forall|a: u32, b: u32| #[trigger]
        next.patterns.contains_key(a) && #[trigger] next.patterns.contains_key(b)
            && next.patterns[a].trigger == next.patterns[b].trigger implies a == b by {
        if a == id.0 && b != id.0 {
            assert(model::serves(m.patterns, b, pattern.trigger));
        }
        if b == id.0 && a != id.0 {
            assert(model::serves(m.patterns, a, pattern.trigger));
        }
    }
}

/// Taking back a registration leads from such a state to another, in which its
/// trigger is free and every other pattern is as it was.
pub proof fn unregistering_forgets_one_pattern(m: TapPatternModel, id: TapPatternId)
    requires
        m.wf(),
        m.patterns.contains_key(id.0),
    ensures
        ({
            let next = m.without_pattern(id.0);
            &&& next.wf()
            &&& next.pattern(id) is None
            &&& !next.registered(m.patterns[id.0].trigger)
            &&& forall|other: TapPatternId| other != id ==> #[trigger] next.pattern(other)
                == m.pattern(other)
        }),
{
    let next = m.without_pattern(id.0);
    if next.registered(m.patterns[id.0].trigger) {
        let other = next.id_for(m.patterns[id.0].trigger);
        assert(m.patterns.contains_key(other));
        assert(m.patterns.contains_key(id.0));
    }
}

/// Registering a pattern under a free id and taking it back leaves everything
/// but the next id as it was.
pub proof fn unregistering_undoes_registering(
    m: TapPatternModel,
    id: TapPatternId,
    pattern: TapPattern,
)
    requires
        !m.patterns.contains_key(id.0),
    ensures
        m.with_pattern(id.0, pattern).pattern(id) == Some(pattern),
        m.with_pattern(id.0, pattern).without_pattern(id.0) == (TapPatternModel {
            next_id: m.with_pattern(id.0, pattern).next_id,
            ..m
        }),
{
    assert(m.with_pattern(id.0, pattern).without_pattern(id.0).patterns =~= m.patterns);
}

/// Until ids run out, the next id is free, and above every id ever registered.
pub proof fn next_id_is_fresh(m: TapPatternModel, id: TapPatternId, pattern: TapPattern)
    requires
        m.wf(),
    ensures
        m.next_id < u32::MAX ==> !m.patterns.contains_key(m.next_id),
        m.with_pattern(id.0, pattern).next_id >= m.next_id,
        m.with_pattern(id.0, pattern).next_id > id.0 || id.0 == u32::MAX,
        m.without_pattern(id.0).next_id == m.next_id,
{
}

/// A pattern is the one found for its trigger.
proof fn lemma_pattern_for(m: TapPatternModel, id: u32)
    requires
        m.wf(),
        m.patterns.contains_key(id),
    ensures
        m.registered(m.patterns[id].trigger),
        m.id_for(m.patterns[id].trigger) == id,
{
    assert(model::serves(m.patterns, id, m.patterns[id].trigger));
}

} // verus!
