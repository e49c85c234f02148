//! What the tap-pattern recognizer emits, told from the events alone.

use vstd::prelude::*;

use crate::error::Error;
use crate::text;
use crate::time::Instant;
use crate::types::{KeyEvent, TapPattern, TapPatternEvent, TapPatternId, TriggerKey};

use super::laws;
use super::model::{self, ActiveTapSequence, TapPatternModel};

verus! {

/// Whether an event is about a trigger: its key, or its modifier if there is no key.
pub open spec fn about(event: KeyEvent, trigger: TriggerKey) -> bool {
    match trigger {
        TriggerKey::Key(key) => event.key == Some(key),
        TriggerKey::Modifier(own) => event.key is None && event.changed_modifier == Some(own),
    }
}

/// Whether a trigger is down after the first `n` events: the last of them about it
/// was a press, whatever modifiers were held.
pub open spec fn down(events: Seq<(KeyEvent, Instant)>, n: int, trigger: TriggerKey) -> bool
    decreases n,
{
    n > 0 && if about(events[n - 1].0, trigger) {
        events[n - 1].0.is_key_down
    } else {
        down(events, n - 1, trigger)
    }
}

/// Whether an event presses a trigger: it goes down and was not down.
pub open spec fn pressed(events: Seq<(KeyEvent, Instant)>, i: int, trigger: TriggerKey) -> bool {
    about(events[i].0, trigger) && events[i].0.is_key_down && !down(events, i, trigger)
}

/// Whether an event presses some trigger.
pub open spec fn presses_one(events: Seq<(KeyEvent, Instant)>, i: int) -> bool {
    exists|t: TriggerKey| pressed(events, i, t)
}

/// The place of the last press, of any trigger, among the first `n` events, or -1.
pub open spec fn last_press(events: Seq<(KeyEvent, Instant)>, n: int) -> int
    decreases n,
{
    if n <= 0 {
        -1
    } else if presses_one(events, n - 1) {
        n - 1
    } else {
        last_press(events, n - 1)
    }
}

/// The number of taps that the press at a place makes for its pattern. It counts on if
/// the press just before it was of the same trigger, no longer ago than the
/// timeout, and did not complete the pattern.
pub open spec fn taps(events: Seq<(KeyEvent, Instant)>, n: int, pattern: TapPattern) -> int
    decreases n,
{
    let p = last_press(events, n);
    if 0 <= p < n && pressed(events, p, pattern.trigger) && events[p].1.nanos <= events[n].1.nanos
        && events[n].1.nanos <= events[p].1.nanos + pattern.timeout.nanos && taps(
        events,
        p,
        pattern,
    ) < pattern.tap_count {
        if taps(events, p, pattern) >= 255 {
            255
        } else {
            taps(events, p, pattern) + 1
        }
    } else {
        1
    }
}

proof fn lemma_about(event: KeyEvent, trigger: TriggerKey)
    ensures
        about(event, trigger) <==> TriggerKey::of_event(event) == Some(trigger),
{
}

proof fn lemma_taps_bounds(events: Seq<(KeyEvent, Instant)>, n: int, pattern: TapPattern)
    ensures
        1 <= taps(events, n, pattern) <= 255,
        -1 <= last_press(events, n),
        n >= 0 ==> last_press(events, n) < n,
        last_press(events, n) >= 0 ==> presses_one(events, last_press(events, n)),
    decreases n,
{
    if n > 0 {
        lemma_taps_bounds(events, n - 1, pattern);
        let p = last_press(events, n);
        if 0 <= p < n {
            lemma_taps_bounds(events, p, pattern);
        }
    }
}

/// A recognizer that held nothing takes a trigger for held exactly if the last
/// event about it was a press: a release ends that, whatever modifiers are held.
pub proof fn held_triggers_are_those_pressed_last(
    m: TapPatternModel,
    events: Seq<(KeyEvent, Instant)>,
    trigger: TriggerKey,
)
    requires
        m.held == Set::<TriggerKey>::empty(),
    ensures
        laws::run(m, events).held.contains(trigger) <==> down(
            events,
            events.len() as int,
            trigger,
        ),
{
    lemma_held(m, events, events.len() as int, trigger);
    assert(events.take(events.len() as int) =~= events);
}

proof fn lemma_held(
    m: TapPatternModel,
    events: Seq<(KeyEvent, Instant)>,
    n: int,
    trigger: TriggerKey,
)
    requires
        m.held == Set::<TriggerKey>::empty(),
        0 <= n <= events.len(),
    ensures
        laws::run(m, events.take(n)).held.contains(trigger) <==> down(events, n, trigger),
    decreases n,
{
    if n > 0 {
        lemma_held(m, events, n - 1, trigger);
        assert(events.take(n).drop_last() =~= events.take(n - 1));
        lemma_about(events[n - 1].0, trigger);
    }
}

proof fn lemma_same_patterns(m: TapPatternModel, events: Seq<(KeyEvent, Instant)>)
    ensures
        laws::run(m, events).patterns == m.patterns,
        laws::run(m, events).next_id == m.next_id,
    decreases events.len(),
{
    if events.len() > 0 {
        lemma_same_patterns(m, events.drop_last());
    }
}

/// The taps under way after the first `n` events are those of the last press, if it
/// was of a registered trigger and did not complete its pattern.
spec fn stands(
    m: TapPatternModel,
    events: Seq<(KeyEvent, Instant)>,
    n: int,
    active: Option<ActiveTapSequence>,
) -> bool {
    let p = last_press(events, n);
    match active {
        Some(active) => {
            &&& 0 <= p < n
            &&& pressed(events, p, active.trigger)
            &&& m.registered(active.trigger)
            &&& taps(events, p, m.pattern_for(active.trigger)) < m.pattern_for(
                active.trigger,
            ).tap_count
            &&& active.count == taps(events, p, m.pattern_for(active.trigger))
            &&& active.last_tap_at == events[p].1
        },
        None => p < 0 || forall|t: TriggerKey|
            #![trigger m.registered(t)]
            pressed(events, p, t) && m.registered(t) ==> taps(events, p, m.pattern_for(t))
                >= m.pattern_for(t).tap_count,
    }
}

proof fn lemma_stands(m: TapPatternModel, events: Seq<(KeyEvent, Instant)>, n: int)
    requires
        m.wf(),
        m.held == Set::<TriggerKey>::empty(),
        m.active is None,
        0 <= n <= events.len(),
    ensures
        stands(m, events, n, laws::run(m, events.take(n)).active),
    decreases n,
{
    if n > 0 {
        lemma_stands(m, events, n - 1);
        lemma_step(m, events, n - 1);
    }
}

/// A press makes as many taps for the recognizer as the events say.
proof fn lemma_press(
    m: TapPatternModel,
    events: Seq<(KeyEvent, Instant)>,
    n: int,
    trigger: TriggerKey,
)
    requires
        m.wf(),
        m.held == Set::<TriggerKey>::empty(),
        m.active is None,
        0 <= n < events.len(),
        stands(m, events, n, laws::run(m, events.take(n)).active),
    ensures
        ({
            let before = laws::run(m, events.take(n));
            let event = events[n].0;
            &&& before.press(event) == Some(trigger) <==> pressed(events, n, trigger)
            &&& pressed(events, n, trigger) && m.registered(trigger) ==> before.taps(
                trigger,
                events[n].1,
            ) == taps(events, n, m.pattern_for(trigger))
        }),
{
    let before = laws::run(m, events.take(n));
    lemma_held(m, events, n, trigger);
    lemma_about(events[n].0, trigger);
    lemma_same_patterns(m, events.take(n));
    let p = last_press(events, n);
    if pressed(events, n, trigger) && m.registered(trigger) {
        let pattern = m.pattern_for(trigger);
        assert(before.pattern_for(trigger) == pattern);
        lemma_taps_bounds(events, n, pattern);
        if 0 <= p {
            lemma_taps_bounds(events, p, pattern);
            if pressed(events, p, trigger) {
                if let Some(active) = before.active {
                    lemma_about(events[p].0, trigger);
                    lemma_about(events[p].0, active.trigger);
                    assert(active.trigger == trigger);
                }
            }
        }
    }
}

proof fn lemma_step(m: TapPatternModel, events: Seq<(KeyEvent, Instant)>, n: int)
    requires
        m.wf(),
        m.held == Set::<TriggerKey>::empty(),
        m.active is None,
        0 <= n < events.len(),
        stands(m, events, n, laws::run(m, events.take(n)).active),
    ensures
        stands(m, events, n + 1, laws::run(m, events.take(n + 1)).active),
{
    let before = laws::run(m, events.take(n));
    let after = laws::run(m, events.take(n + 1));
    let event = events[n].0;
    assert(events.take(n + 1).drop_last() =~= events.take(n));
    assert(after == before.after(event, events[n].1));
    lemma_same_patterns(m, events.take(n));
    match before.press(event) {
        Some(trigger) => {
            lemma_press(m, events, n, trigger);
            assert(pressed(events, n, trigger));
            assert(presses_one(events, n));
            assert(last_press(events, n + 1) == n);
            assert(before.registered(trigger) == m.registered(trigger));
            assert forall|t: TriggerKey| pressed(events, n, t) implies t == trigger by {
                lemma_about(event, t);
                lemma_about(event, trigger);
            }
            if m.registered(trigger) {
                assert(before.pattern_for(trigger) == m.pattern_for(trigger));
            } else if let Some(active) = before.active {
                assert(m.registered(active.trigger));
                assert(active.trigger != trigger);
            }
        },
        None => {
            assert forall|t: TriggerKey| !pressed(events, n, t) by {
                lemma_press(m, events, n, t);
            }
            assert(last_press(events, n + 1) == last_press(events, n));
        },
    }
}

/// What an event emits follows from the events: it emits exactly if it presses a
/// registered trigger, which was up, and the taps that this makes are as many as its
/// pattern asks for. Then it emits that pattern once, with the number of taps.
pub proof fn emitted_patterns_follow_from_the_events(
    m: TapPatternModel,
    events: Seq<(KeyEvent, Instant)>,
    n: int,
    id: u32,
)
    requires
        m.wf(),
        m.held == Set::<TriggerKey>::empty(),
        m.active is None,
        0 <= n < events.len(),
        m.patterns.contains_key(id),
    ensures
        ({
            let pattern = m.patterns[id];
            let emitted = laws::run(m, events.take(n)).emitted(events[n].0, events[n].1);
            if pressed(events, n, pattern.trigger) && taps(events, n, pattern)
                >= pattern.tap_count {
                &&& emitted.len() == 1
                &&& emitted[0].id.0 == id
                &&& emitted[0].tap_count == taps(events, n, pattern)
                &&& emitted[0].is_key_down
            } else {
                forall|i: int| 0 <= i < emitted.len() ==> (#[trigger] emitted[i]).id.0 != id
            }
        }),
{
    let pattern = m.patterns[id];
    let trigger = pattern.trigger;
    let before = laws::run(m, events.take(n));
    lemma_stands(m, events, n);
    lemma_press(m, events, n, trigger);
    lemma_same_patterns(m, events.take(n));
    lemma_taps_bounds(events, n, pattern);
    assert(model::serves(m.patterns, id, trigger));
    assert(m.registered(trigger));
    assert(m.id_for(trigger) == id);
    assert(before.registered(trigger));
    assert(before.id_for(trigger) == id);
    if let Some(t) = before.press(events[n].0) {
        if before.registered(t) {
            assert(model::serves(before.patterns, before.id_for(t), t));
        }
    }
}

/// Two presses of a trigger with a valid pattern, with its release between them and
/// nothing else, the second press within the timeout, emit the pattern at the second
/// press: whatever modifiers the three events report, and however the run began.
pub proof fn press_release_press_emits(
    m: TapPatternModel,
    id: u32,
    press: KeyEvent,
    pressed_at: Instant,
    release: KeyEvent,
    released_at: Instant,
    again: KeyEvent,
    again_at: Instant,
)
    requires
        m.wf(),
        m.patterns.contains_key(id),
        m.patterns[id].tap_count == 2,
        !m.held.contains(m.patterns[id].trigger),
        m.active is None,
        about(press, m.patterns[id].trigger) && press.is_key_down,
        about(release, m.patterns[id].trigger) && !release.is_key_down,
        about(again, m.patterns[id].trigger) && again.is_key_down,
        pressed_at.nanos <= again_at.nanos,
        again_at.nanos <= pressed_at.nanos + m.patterns[id].timeout.nanos,
    ensures
        ({
            let down = m.after(press, pressed_at);
            let up = down.after(release, released_at);
            &&& m.emitted(press, pressed_at).len() == 0
            &&& down.emitted(release, released_at).len() == 0
            &&& up.emitted(again, again_at) == seq![
                TapPatternEvent { id: TapPatternId(id), tap_count: 2, is_key_down: true },
            ]
        }),
{
    let trigger = m.patterns[id].trigger;
    lemma_about(press, trigger);
    lemma_about(release, trigger);
    lemma_about(again, trigger);
    assert(model::serves(m.patterns, id, trigger));
    assert(m.id_for(trigger) == id);
    let up = m.after(press, pressed_at).after(release, released_at);
    assert(up.patterns == m.patterns);
    assert(up.id_for(trigger) == id);
    assert(up.taps(trigger, again_at) == 2);
}

/// A release leaves its trigger not held and a press leaves it held, whatever
/// modifiers the event reports, and neither touches another trigger.
pub proof fn events_hold_and_let_go(
    m: TapPatternModel,
    event: KeyEvent,
    now: Instant,
    trigger: TriggerKey,
)
    ensures
        m.after(event, now).held.contains(trigger) <==> if about(event, trigger) {
            event.is_key_down
        } else {
            m.held.contains(trigger)
        },
        m.after(event, now).patterns == m.patterns,
        m.after(event, now).next_id == m.next_id,
{
    lemma_about(event, trigger);
}

/// What registering under the next id gives: that id, if it is not in use and no
/// pattern has the trigger, and otherwise a refusal that names the id or the trigger.
/// What keys do meanwhile is not touched.
pub proof fn registration_is_answered(
    m: TapPatternModel,
    pattern: TapPattern,
    r: Result<TapPatternId, Error>,
    next: TapPatternModel,
)
    requires
        m.registers(pattern, r, next),
    ensures
        r is Ok <==> !m.patterns.contains_key(m.next_id) && forall|id: u32| #[trigger]
            m.patterns.contains_key(id) ==> m.patterns[id].trigger != pattern.trigger,
        r matches Ok(id) ==> id.0 == m.next_id && next.patterns == m.patterns.insert(
            m.next_id,
            pattern,
        ),
        r is Err ==> next.patterns == m.patterns && r->Err_0 is TapPatternAlreadyRegistered,
        m.patterns.contains_key(m.next_id) ==> (r->Err_0->TapPatternAlreadyRegistered_0)@ == "id "@ + (
        "TapPatternId("@ + text::decimal(m.next_id as nat) + ")"@),
        r is Err && !m.patterns.contains_key(m.next_id) ==> (
        r->Err_0->TapPatternAlreadyRegistered_0)@ == "trigger "@ + pattern.trigger.shown(),
        next.next_id == (if m.next_id < u32::MAX {
            m.next_id + 1
        } else {
            u32::MAX as int
        }),
        next.held == m.held,
        next.active == m.active,
{
    lemma_taken(m, pattern.trigger);
}

/// What registering under an id of choice gives, in the same way. The next id ends
/// up above it, if it can.
pub proof fn registration_under_an_id_is_answered(
    m: TapPatternModel,
    id: TapPatternId,
    pattern: TapPattern,
    r: Result<(), Error>,
    next: TapPatternModel,
)
    requires
        m.registers_as(id, pattern, r, next),
    ensures
        r is Ok <==> !m.patterns.contains_key(id.0) && forall|other: u32| #[trigger]
            m.patterns.contains_key(other) ==> m.patterns[other].trigger != pattern.trigger,
        r is Ok ==> next.patterns == m.patterns.insert(id.0, pattern),
        r is Ok ==> next.next_id == (if m.next_id > id.0 {
            m.next_id as int
        } else if id.0 < u32::MAX {
            id.0 + 1
        } else {
            u32::MAX as int
        }),
        r is Err ==> next == m && r->Err_0 is TapPatternAlreadyRegistered,
        m.patterns.contains_key(id.0) ==> (r->Err_0->TapPatternAlreadyRegistered_0)@ == "id "@ + (
        "TapPatternId("@ + text::decimal(id.0 as nat) + ")"@),
        r is Err && !m.patterns.contains_key(id.0) ==> (r->Err_0->TapPatternAlreadyRegistered_0)@
            == "trigger "@ + pattern.trigger.shown(),
        next.held == m.held,
        next.active == m.active,
{
    lemma_taken(m, pattern.trigger);
}

proof fn lemma_taken(m: TapPatternModel, trigger: TriggerKey)
    ensures
        m.registered(trigger) <==> exists|id: u32| #[trigger]
            m.patterns.contains_key(id) && m.patterns[id].trigger == trigger,
{
    if m.registered(trigger) {
        assert(model::serves(m.patterns, m.id_for(trigger), trigger));
        assert(m.patterns.contains_key(m.id_for(trigger)));
    }
    if exists|id: u32| #[trigger]
        m.patterns.contains_key(id) && m.patterns[id].trigger == trigger {
        let id = choose|id: u32| #[trigger]
            m.patterns.contains_key(id) && m.patterns[id].trigger == trigger;
        assert(model::serves(m.patterns, id, trigger));
    }
}

/// Taking back a registration succeeds exactly if the id is in use. What is held and the
/// taps under way are not touched.
pub proof fn unregistration_is_answered(
    m: TapPatternModel,
    id: TapPatternId,
    r: Result<(), Error>,
    next: TapPatternModel,
)
    requires
        m.unregisters(id, r, next),
    ensures
        r is Ok <==> m.patterns.contains_key(id.0),
        r is Ok ==> next.patterns == m.patterns.remove(id.0),
        r matches Err(e) ==> e == Error::TapPatternNotFound(id) && next == m,
        next.next_id == m.next_id,
        next.held == m.held,
        next.active == m.active,
        m.pattern(id) == (if m.patterns.contains_key(id.0) {
            Some(m.patterns[id.0])
        } else {
            None
        }),
        next.pattern(id) is None,
{
}

/// What one event does in any state, such as after patterns have come and gone between
/// taps.
pub proof fn one_event_moves_the_taps_on(
    m: TapPatternModel,
    event: KeyEvent,
    now: Instant,
    trigger: TriggerKey,
    id: u32,
)
    requires
        m.wf(),
        about(event, trigger),
        event.is_key_down,
        !m.held.contains(trigger),
        m.patterns.contains_key(id),
        m.patterns[id].trigger == trigger,
    ensures
        ({
            let next = m.after(event, now);
            let pattern = m.patterns[id];
            let counts_on = m.active is Some && m.active->0.trigger == trigger
                && m.active->0.last_tap_at.nanos <= now.nanos && now.nanos
                <= m.active->0.last_tap_at.nanos + pattern.timeout.nanos;
            let count = if !counts_on {
                1
            } else if m.active->0.count == 255 {
                255
            } else {
                m.active->0.count + 1
            };
            if count >= pattern.tap_count {
                &&& m.emitted(event, now).len() == 1
                &&& m.emitted(event, now)[0].id.0 == id
                &&& m.emitted(event, now)[0].tap_count == count
                &&& m.emitted(event, now)[0].is_key_down
                &&& next.active is None
            } else {
                &&& m.emitted(event, now).len() == 0
                &&& next.active is Some
                &&& next.active->0.trigger == trigger
                &&& next.active->0.count == count
                &&& next.active->0.last_tap_at == now
            }
        }),
{
    lemma_about(event, trigger);
    assert(model::serves(m.patterns, id, trigger));
    assert(m.id_for(trigger) == id);
}

/// An event that presses no registered trigger emits nothing. If it presses another
/// trigger than that of the taps under way, these are over; otherwise they stay.
pub proof fn other_events_emit_nothing(m: TapPatternModel, event: KeyEvent, now: Instant)
    requires
        forall|t: TriggerKey| #[trigger]
            about(event, t) && event.is_key_down && !m.held.contains(t) ==> forall|id: u32|
             #[trigger]
                m.patterns.contains_key(id) ==> m.patterns[id].trigger != t,
    ensures
        m.emitted(event, now).len() == 0,
        (exists|t: TriggerKey| #[trigger]
            about(event, t) && event.is_key_down && !m.held.contains(t) && m.active is Some
                && m.active->0.trigger != t) ==> m.after(event, now).active is None,
        !(exists|t: TriggerKey| #[trigger]
            about(event, t) && event.is_key_down && !m.held.contains(t) && m.active is Some
                && m.active->0.trigger != t) ==> m.after(event, now).active == m.active,
{
    assert forall|t: TriggerKey| #[trigger] about(event, t) <==> TriggerKey::of_event(event)
        == Some(t) by {
        lemma_about(event, t);
    }
    if let Some(trigger) = m.press(event) {
        assert(about(event, trigger));
        lemma_taken(m, trigger);
        assert(!m.registered(trigger));
    }
}

} // verus!
