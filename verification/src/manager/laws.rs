//! What the manager promises about runs of events and calls.

use vstd::prelude::*;

use crate::error::Error;
use crate::time::Instant;
use crate::types::{
    HandyKeysEvent, Hotkey, HotkeyEvent, HotkeyId, HotkeyState, KeyEvent, TapAloneId,
};

use super::inbox::{self, EventInbox, EventKind, EVENT_BUFFER_LIMIT};
use super::state::ManagerState;
use super::HotkeyManager;

verus! {

/// Whether `next` is a state in which the hotkeys are as an event leaves them.
pub open spec fn follows(s: ManagerState, event: KeyEvent, next: ManagerState) -> bool {
    next.hotkeys@ == s.hotkeys@ && next.pressed_hotkeys@ == s.pressed_after(event)
}

/// A key that repeats presses no hotkey a second time, and a release that comes
/// twice releases none again.
pub proof fn repeated_event_changes_no_hotkey(s: ManagerState, event: KeyEvent, next: ManagerState)
    requires
        follows(s, event, next),
    ensures
        forall|id: u32| !#[trigger] next.changes(event, id),
        forall|told: Seq<HotkeyEvent>| #[trigger] next.tells(event, told) ==> told.len() == 0,
{
    assert forall|id: u32| !#[trigger] next.changes(event, id) by {
        if next.changes(event, id) {
            assert(!s.changes(event, id));
        }
    }
    assert forall|told: Seq<HotkeyEvent>| #[trigger] next.tells(event, told) implies told.len()
        == 0 by {
        if told.len() > 0 {
            assert(next.changes(event, told[0].id.0));
        }
    }
}

/// Presses and releases of a hotkey alternate: one that is told of as pressed was
/// up and is down, and one that is told of as released was down and is up.
pub proof fn presses_and_releases_alternate(
    s: ManagerState,
    event: KeyEvent,
    told: Seq<HotkeyEvent>,
    next: ManagerState,
    i: int,
)
    requires
        s.tells(event, told),
        follows(s, event, next),
        0 <= i < told.len(),
    ensures
        s.hotkeys@.contains_key(told[i].id.0),
        told[i].state == HotkeyState::Pressed ==> !s.pressed_hotkeys@.contains(told[i].id.0)
            && next.pressed_hotkeys@.contains(told[i].id.0),
        told[i].state == HotkeyState::Released ==> s.pressed_hotkeys@.contains(told[i].id.0)
            && !next.pressed_hotkeys@.contains(told[i].id.0),
{
    assert(s.changes(event, told[i].id.0));
}

/// What an event tells of is all that it changes.
pub proof fn hotkeys_not_told_of_stay(
    s: ManagerState,
    event: KeyEvent,
    told: Seq<HotkeyEvent>,
    next: ManagerState,
    id: u32,
)
    requires
        s.tells(event, told),
        follows(s, event, next),
        forall|i: int| 0 <= i < told.len() ==> (#[trigger] told[i]).id.0 != id,
    ensures
        next.pressed_hotkeys@.contains(id) <==> s.pressed_hotkeys@.contains(id),
{
    if s.changes(event, id) {
        let i = choose|i: int| 0 <= i < told.len() && (#[trigger] told[i]).id.0 == id;
        assert(told[i].id.0 != id);
    }
}

/// Mouse activity neither presses nor releases a hotkey.
pub proof fn activity_moves_no_hotkey(s: ManagerState, event: KeyEvent, told: Seq<HotkeyEvent>)
    requires
        event.activity is Some,
        s.tells(event, told),
    ensures
        told.len() == 0,
        s.pressed_after(event) == s.pressed_hotkeys@,
{
    if told.len() > 0 {
        assert(s.changes(event, told[0].id.0));
    }
    assert(s.pressed_after(event) =~= s.pressed_hotkeys@);
}

/// The release of its key releases a hotkey that its press pressed, whatever
/// modifiers are held by then, and the hotkeys are as they were before.
pub proof fn key_release_undoes_key_press(
    s: ManagerState,
    press: KeyEvent,
    between: ManagerState,
    release: KeyEvent,
)
    requires
        follows(s, press, between),
        press.key is Some,
        press.is_key_down,
        press.activity is None,
        release.key == press.key,
        !release.is_key_down,
        release.activity is None,
        forall|id: u32|
            #![trigger s.hotkeys@[id]]
            s.hotkeys@.contains_key(id) && s.hotkeys@[id].key == press.key
                ==> !s.pressed_hotkeys@.contains(id),
    ensures
        forall|id: u32| #[trigger] s.changes(press, id) <==> between.changes(release, id),
        between.pressed_after(release) == s.pressed_hotkeys@,
{
    assert forall|id: u32| #[trigger] s.changes(press, id) <==> between.changes(release, id) by {
        assert(s.hotkeys@.contains_key(id) ==> s.hotkeys@[id] == between.hotkeys@[id]);
    }
    assert forall|id: u32|
        between.pressed_after(release).contains(id) == s.pressed_hotkeys@.contains(id) by {
        assert(s.changes(press, id) <==> between.changes(release, id));
    }
    assert(between.pressed_after(release) =~= s.pressed_hotkeys@);
}

/// A modifier that goes up releases no hotkey whose modifiers are still held.
pub proof fn unrelated_modifier_releases_nothing(s: ManagerState, event: KeyEvent, id: u32)
    requires
        event.key is None,
        !event.is_key_down,
        s.hotkeys@.contains_key(id),
        s.hotkeys@[id].modifiers.met_by(event.modifiers),
    ensures
        !s.changes(event, id),
{
}

/// A hotkey that is down is released once its modifiers are no longer held.
pub proof fn lost_modifier_releases(s: ManagerState, event: KeyEvent, id: u32)
    requires
        event.key is None,
        event.activity is None,
        !event.is_key_down,
        s.hotkeys@.contains_key(id),
        s.pressed_hotkeys@.contains(id),
        !s.hotkeys@[id].modifiers.met_by(event.modifiers),
    ensures
        s.changes(event, id),
        !s.pressed_after(event).contains(id),
{
}

/// A hotkey that is not registered is not told of, even if it was down when its
/// registration was taken back.
pub proof fn unregistered_hotkey_is_not_told_of(
    s: ManagerState,
    event: KeyEvent,
    told: Seq<HotkeyEvent>,
    id: u32,
)
    requires
        !s.hotkeys@.contains_key(id),
        s.tells(event, told),
    ensures
        forall|i: int| 0 <= i < told.len() ==> (#[trigger] told[i]).id.0 != id,
{
    assert forall|i: int| 0 <= i < told.len() implies (#[trigger] told[i]).id.0 != id by {
        assert(s.changes(event, told[i].id.0));
    }
}

/// Registering a hotkey and taking it back leaves everything but the next id as it was.
pub proof fn unregistering_undoes_registering(
    s: ManagerState,
    hotkey: Hotkey,
    id: HotkeyId,
    registered: ManagerState,
    r: Result<Hotkey, Error>,
    after: ManagerState,
)
    requires
        s.registry_wf(),
        s.registers(hotkey, Ok(id), registered),
        registered.unregisters(id, r, after),
    ensures
        registered.registered(hotkey),
        r == Ok::<Hotkey, Error>(hotkey),
        after.hotkeys@ == s.hotkeys@,
        after == (ManagerState { hotkeys: after.hotkeys, next_id: after.next_id, ..s }),
        after.next_id == s.next_id + 1,
{
    assert(registered.hotkeys@.contains_key(id.0));
    assert(!s.hotkeys@.contains_key(id.0));
    assert(after.hotkeys@ =~= s.hotkeys@);
}

/// The id that the next registration gives is not in use, and neither are those after it.
pub proof fn next_id_is_fresh(s: ManagerState, id: u32)
    requires
        s.registry_wf(),
        id >= s.next_id,
    ensures
        !s.hotkeys@.contains_key(id),
{
}

/// A manager that blocks keeps from other applications exactly the hotkeys that
/// are registered.
pub proof fn blocked_hotkeys_are_the_registered_ones(manager: HotkeyManager, hotkey: Hotkey)
    requires
        manager.inv(),
    ensures
        manager.blocking_hotkeys matches Some(blocking) ==> (blocking@.contains(hotkey)
            <==> exists|id: u32| #[trigger]
            manager.state.hotkeys@.contains_key(id) && manager.state.hotkeys@[id] == hotkey),
{
}

/// The event loop does not wait past a deadline: of the taps that wait, those
/// whose deadline has not come are not due before the wait is over.
pub proof fn wait_ends_by_the_next_deadline(
    s: ManagerState,
    now: Instant,
    nanos: u128,
    id: TapAloneId,
)
    requires
        s.waits(now, nanos),
        s.tap_alones@.pending(id),
        !s.tap_alones@.due(id, now),
    ensures
        now.nanos + nanos <= s.tap_alones@.deadline(id).nanos,
{
}

/// Only one time meets what is asked of a wait.
pub proof fn wait_is_determined(s: ManagerState, now: Instant, a: u128, b: u128)
    requires
        s.waits(now, a),
        s.waits(now, b),
    ensures
        a == b,
{
}

/// Receiving takes one event out of those that wait and leaves the others, in
/// order, as long as there is room to keep those that are passed over: the first
/// of the kind if there is one, and otherwise none.
pub proof fn receiving_takes_the_first_of_its_kind(
    before: EventInbox,
    kind: EventKind,
    r: Option<HandyKeysEvent>,
    after: EventInbox,
)
    requires
        before.receives(kind, r, after),
        before.event_buffer@.len() + before.incoming@.len() <= EVENT_BUFFER_LIMIT,
    ensures
        ({
            let waiting = before.event_buffer@ + before.incoming@;
            let first = kind.first_in(waiting);
            if first < waiting.len() {
                &&& r == Some(waiting[first as int])
                &&& after.event_buffer@ + after.incoming@ == waiting.remove(first as int)
            } else {
                &&& r is None
                &&& after.event_buffer@ + after.incoming@ == waiting
            }
        }),
{
    let buffer = before.event_buffer@;
    let sent = before.incoming@;
    let waiting = buffer + sent;
    kind.lemma_first_in(buffer);
    kind.lemma_first_in(sent);
    let in_buffer = kind.first_in(buffer) as int;
    let ahead = kind.first_in(sent) as int;
    let first = if in_buffer < buffer.len() {
        in_buffer
    } else {
        buffer.len() + ahead
    };
    assert forall|j: int| 0 <= j < first implies !kind.covers(#[trigger] waiting[j]) by {
        if j < buffer.len() {
            assert(waiting[j] == buffer[j]);
        } else {
            assert(waiting[j] == sent[j - buffer.len()]);
        }
    }
    kind.lemma_is_first(waiting, first);
    if first < waiting.len() {
        assert(after.event_buffer@ + after.incoming@ =~= waiting.remove(first));
    } else {
        assert(after.event_buffer@ + after.incoming@ =~= waiting);
    }
}

/// Whatever is received, no more events are kept than the limit, and if some that
/// were passed over have to give way they are the oldest.
pub proof fn kept_events_are_bounded(
    before: EventInbox,
    kind: EventKind,
    r: Option<HandyKeysEvent>,
    after: EventInbox,
)
    requires
        before.inv(),
        before.receives(kind, r, after),
    ensures
        after.event_buffer@.len() <= EVENT_BUFFER_LIMIT,
        kind.first_in(before.event_buffer@) >= before.event_buffer@.len()
            ==> after.event_buffer@.is_suffix_of(
            before.event_buffer@ + before.incoming@.take(kind.first_in(before.incoming@) as int),
        ),
{
    kind.lemma_first_in(before.event_buffer@);
    kind.lemma_first_in(before.incoming@);
    if kind.first_in(before.incoming@) == before.incoming@.len() {
        assert(before.incoming@.take(before.incoming@.len() as int) =~= before.incoming@);
    }
}

/// Receiving that finds nothing leaves nothing of its kind behind, and all that
/// was coming in has been passed over.
pub proof fn failed_receiving_leaves_none_of_its_kind(
    before: EventInbox,
    kind: EventKind,
    after: EventInbox,
)
    requires
        before.receives(kind, None, after),
    ensures
        kind.first_in(after.event_buffer@) == after.event_buffer@.len(),
        after.incoming@.len() == 0,
{
    let buffer = before.event_buffer@;
    let sent = before.incoming@;
    kind.lemma_first_in(buffer);
    kind.lemma_first_in(sent);
    let all = buffer + sent;
    let kept = after.event_buffer@;
    let gone = all.len() - kept.len();
    assert forall|j: int| 0 <= j < kept.len() implies !kind.covers(#[trigger] kept[j]) by {
        assert(kept[j] == all[gone + j]);
        if gone + j < buffer.len() {
            assert(!kind.covers(buffer[gone + j]));
        } else {
            assert(!kind.covers(sent[gone + j - buffer.len()]));
        }
    }
    kind.lemma_is_first(kept, kept.len() as int);
}

/// Waiting for an event of a kind, where none is kept: the next event that is sent
/// is the one if it is of the kind, and is kept for later otherwise.
pub proof fn next_event_is_received_or_kept(
    before: EventInbox,
    kind: EventKind,
    event: HandyKeysEvent,
    r: Option<HandyKeysEvent>,
    after: EventInbox,
)
    requires
        kind.first_in(before.event_buffer@) == before.event_buffer@.len(),
        before.inv(),
        before.incoming@ == seq![event],
        before.receives(kind, r, after),
    ensures
        after.incoming@.len() == 0,
        if kind.covers(event) {
            r == Some(event) && after.event_buffer@ == before.event_buffer@
        } else {
            r is None && after.event_buffer@ == inbox::latest(before.event_buffer@.push(event))
        },
{
    kind.lemma_first_in(before.incoming@);
    if kind.covers(event) {
        kind.lemma_is_first(before.incoming@, 0);
        assert(before.event_buffer@ + before.incoming@.take(0) =~= before.event_buffer@);
    } else {
        kind.lemma_is_first(before.incoming@, 1);
        assert(before.event_buffer@ + before.incoming@ =~= before.event_buffer@.push(event));
    }
}

/// Receiving events of any kind empties what waits in the order in which it came.
pub proof fn receiving_any_takes_the_oldest(
    before: EventInbox,
    r: Option<HandyKeysEvent>,
    after: EventInbox,
)
    requires
        before.receives_any(r, after),
    ensures
        ({
            let waiting = before.event_buffer@ + before.incoming@;
            if waiting.len() > 0 {
                &&& r == Some(waiting[0])
                &&& after.event_buffer@ + after.incoming@ == waiting.drop_first()
            } else {
                &&& r is None
                &&& after.event_buffer@ + after.incoming@ == waiting
            }
        }),
{
    let waiting = before.event_buffer@ + before.incoming@;
    if waiting.len() > 0 {
        assert(after.event_buffer@ + after.incoming@ =~= waiting.drop_first());
    }
}

} // verus!
