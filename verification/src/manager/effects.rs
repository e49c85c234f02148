//! What the manager does, told from the fields of events and the places of messages.

use vstd::prelude::*;

use crate::error::Error;
use crate::text;
use crate::time::Instant;
use crate::types::{
    HandyKeysEvent, Hotkey, HotkeyEvent, HotkeyId, HotkeyState, KeyEvent, Modifiers, TapAloneEvent,
    TapAloneId, TapPatternEvent,
};

use super::inbox::{self, EventInbox, EventKind};
use super::state::{self, ListenerReply, ManagerState, ProcessedEvents};
use super::HotkeyManager;

verus! {

/// Whether what is held of a modifier with a left and a right key is what is asked
/// for: either key if both are asked for, and otherwise just the one asked for, or none.
pub open spec fn side_fits(asked: u32, held: u32, both: u32) -> bool {
    if asked & both == both {
        held & both != 0
    } else {
        held & both == asked & both
    }
}

/// Whether the held modifiers are what is asked for, on the bits of command, control,
/// option, shift and function key.
pub open spec fn fits(asked: u32, held: u32) -> bool {
    &&& side_fits(asked, held, 0x3)
    &&& side_fits(asked, held, 0xc)
    &&& side_fits(asked, held, 0x30)
    &&& side_fits(asked, held, 0xc0)
    &&& held & 0x100 == asked & 0x100
}

/// A hotkey's modifiers are met exactly if those held fit them, bit by bit.
pub proof fn met_modifiers_fit(asked: Modifiers, held: Modifiers)
    ensures
        asked.met_by(held) <==> fits(asked.bits, held.bits),
{
    let a = asked.bits;
    let h = held.bits;
    assert((if a & 0x3 == 0x3 {
        h & 0x3 != 0
    } else {
        h & 0x3 == a & 0x3
    }) <==> (if a & 0x1 != 0 && a & 0x2 != 0 {
        h & 0x1 != 0 || h & 0x2 != 0
    } else {
        (h & 0x1 != 0) == (a & 0x1 != 0) && (h & 0x2 != 0) == (a & 0x2 != 0)
    })) by (bit_vector);
    assert((if a & 0xc == 0xc {
        h & 0xc != 0
    } else {
        h & 0xc == a & 0xc
    }) <==> (if a & 0x4 != 0 && a & 0x8 != 0 {
        h & 0x4 != 0 || h & 0x8 != 0
    } else {
        (h & 0x4 != 0) == (a & 0x4 != 0) && (h & 0x8 != 0) == (a & 0x8 != 0)
    })) by (bit_vector);
    assert((if a & 0x30 == 0x30 {
        h & 0x30 != 0
    } else {
        h & 0x30 == a & 0x30
    }) <==> (if a & 0x10 != 0 && a & 0x20 != 0 {
        h & 0x10 != 0 || h & 0x20 != 0
    } else {
        (h & 0x10 != 0) == (a & 0x10 != 0) && (h & 0x20 != 0) == (a & 0x20 != 0)
    })) by (bit_vector);
    assert((if a & 0xc0 == 0xc0 {
        h & 0xc0 != 0
    } else {
        h & 0xc0 == a & 0xc0
    }) <==> (if a & 0x40 != 0 && a & 0x80 != 0 {
        h & 0x40 != 0 || h & 0x80 != 0
    } else {
        (h & 0x40 != 0) == (a & 0x40 != 0) && (h & 0x80 != 0) == (a & 0x80 != 0)
    })) by (bit_vector);
    assert(h & 0x100 == a & 0x100 <==> (h & 0x100 != 0) == (a & 0x100 != 0)) by (bit_vector);
}

/// Whether an event takes a hotkey down: its key goes down with just its modifiers
/// held, and it was up.
pub open spec fn takes_down(event: KeyEvent, hotkey: Hotkey, pressed: bool) -> bool {
    &&& event.activity is None
    &&& event.is_key_down
    &&& !pressed
    &&& hotkey.key == event.key
    &&& fits(hotkey.modifiers.bits, event.modifiers.bits)
}

/// Whether an event lets a hotkey up: its key goes up, or no key does and the
/// modifiers are no longer those it asks for, and it was down.
pub open spec fn lets_up(event: KeyEvent, hotkey: Hotkey, pressed: bool) -> bool {
    &&& event.activity is None
    &&& !event.is_key_down
    &&& pressed
    &&& (event.key is Some && hotkey.key == event.key || event.key is None && !fits(
        hotkey.modifiers.bits,
        event.modifiers.bits,
    ))
}

/// A key event tells of exactly the registered hotkeys that it takes down or lets up,
/// each once, and these and no others change.
pub proof fn hotkeys_answer_to_their_keys(s: ManagerState, event: KeyEvent, told: Seq<HotkeyEvent>)
    requires
        s.tells(event, told),
    ensures
        forall|id: u32|
            #![trigger s.hotkeys@.contains_key(id)]
            (exists|i: int|
                0 <= i < told.len() && #[trigger] told[i] == (HotkeyEvent {
                    id: HotkeyId(id),
                    state: HotkeyState::Pressed,
                })) <==> s.hotkeys@.contains_key(id) && takes_down(
                event,
                s.hotkeys@[id],
                s.pressed_hotkeys@.contains(id),
            ),
        forall|id: u32|
            #![trigger s.hotkeys@.contains_key(id)]
            (exists|i: int|
                0 <= i < told.len() && #[trigger] told[i] == (HotkeyEvent {
                    id: HotkeyId(id),
                    state: HotkeyState::Released,
                })) <==> s.hotkeys@.contains_key(id) && lets_up(
                event,
                s.hotkeys@[id],
                s.pressed_hotkeys@.contains(id),
            ),
        forall|i: int, j: int|
            0 <= i < j < told.len() ==> (#[trigger] told[i]).id.0 != (#[trigger] told[j]).id.0,
        forall|id: u32| #[trigger]
            s.pressed_after(event).contains(id) <==> if s.hotkeys@.contains_key(id) && takes_down(
                event,
                s.hotkeys@[id],
                s.pressed_hotkeys@.contains(id),
            ) {
                true
            } else if s.hotkeys@.contains_key(id) && lets_up(
                event,
                s.hotkeys@[id],
                s.pressed_hotkeys@.contains(id),
            ) {
                false
            } else {
                s.pressed_hotkeys@.contains(id)
            },
{
    assert forall|id: u32|
        #![trigger s.hotkeys@.contains_key(id)]
        #![trigger s.changes(event, id)]
        s.changes(event, id) <==> s.hotkeys@.contains_key(id) && (takes_down(
            event,
            s.hotkeys@[id],
            s.pressed_hotkeys@.contains(id),
        ) || lets_up(event, s.hotkeys@[id], s.pressed_hotkeys@.contains(id))) by {
        met_modifiers_fit(s.hotkeys@[id].modifiers, event.modifiers);
    }
    assert forall|i: int| 0 <= i < told.len() implies s.changes(event, (#[trigger] told[i]).id.0)
        && told[i] == (HotkeyEvent {
        id: HotkeyId(told[i].id.0),
        state: if event.is_key_down {
            HotkeyState::Pressed
        } else {
            HotkeyState::Released
        },
    }) by {}
    assert forall|id: u32|
        #![trigger s.hotkeys@.contains_key(id)]
        s.changes(event, id) <==> exists|i: int|
            0 <= i < told.len() && (#[trigger] told[i]).id.0 == id by {
        if exists|i: int| 0 <= i < told.len() && (#[trigger] told[i]).id.0 == id {
            let i = choose|i: int| 0 <= i < told.len() && (#[trigger] told[i]).id.0 == id;
            assert(s.changes(event, told[i].id.0));
        }
    }
    assert forall|id: u32|
        #![trigger s.hotkeys@.contains_key(id)]
        (exists|i: int|
            0 <= i < told.len() && #[trigger] told[i] == (HotkeyEvent {
                id: HotkeyId(id),
                state: HotkeyState::Pressed,
            })) <==> s.changes(event, id) && event.is_key_down by {
        if s.changes(event, id) && event.is_key_down {
            let i = choose|i: int| 0 <= i < told.len() && (#[trigger] told[i]).id.0 == id;
            assert(told[i] == (HotkeyEvent { id: HotkeyId(id), state: HotkeyState::Pressed }));
        }
    }
    assert forall|id: u32|
        #![trigger s.hotkeys@.contains_key(id)]
        (exists|i: int|
            0 <= i < told.len() && #[trigger] told[i] == (HotkeyEvent {
                id: HotkeyId(id),
                state: HotkeyState::Released,
            })) <==> s.changes(event, id) && !event.is_key_down by {
        if s.changes(event, id) && !event.is_key_down {
            let i = choose|i: int| 0 <= i < told.len() && (#[trigger] told[i]).id.0 == id;
            assert(told[i] == (HotkeyEvent { id: HotkeyId(id), state: HotkeyState::Released }));
        }
    }
}

/// No hotkey is pressed while a modifier is held of which it names neither key.
pub proof fn foreign_modifier_presses_nothing(
    s: ManagerState,
    event: KeyEvent,
    told: Seq<HotkeyEvent>,
    i: int,
    both: u32,
)
    requires
        s.tells(event, told),
        0 <= i < told.len(),
        told[i].state == HotkeyState::Pressed,
        both == 0x3 || both == 0xc || both == 0x30 || both == 0xc0 || both == 0x100,
    ensures
        s.hotkeys@.contains_key(told[i].id.0),
        event.modifiers.bits & both != 0 <==> s.hotkeys@[told[i].id.0].modifiers.bits & both != 0,
{
    hotkeys_answer_to_their_keys(s, event, told);
    let id = told[i].id.0;
    assert(told[i] == (HotkeyEvent { id: HotkeyId(id), state: HotkeyState::Pressed }));
    assert(s.hotkeys@.contains_key(id) && takes_down(
        event,
        s.hotkeys@[id],
        s.pressed_hotkeys@.contains(id),
    ));
}

/// A hotkey that is up is pressed when its key goes down with exactly its modifiers held.
pub proof fn own_modifiers_press(
    s: ManagerState,
    event: KeyEvent,
    told: Seq<HotkeyEvent>,
    id: u32,
)
    requires
        s.tells(event, told),
        s.hotkeys@.contains_key(id),
        !s.pressed_hotkeys@.contains(id),
        event.activity is None,
        event.is_key_down,
        event.key == s.hotkeys@[id].key,
        event.modifiers.bits == s.hotkeys@[id].modifiers.bits,
    ensures
        exists|i: int|
            0 <= i < told.len() && #[trigger] told[i] == (HotkeyEvent {
                id: HotkeyId(id),
                state: HotkeyState::Pressed,
            }),
        s.pressed_after(event).contains(id),
{
    hotkeys_answer_to_their_keys(s, event, told);
    let b = event.modifiers.bits;
    assert(b & 0x3 == 0x3 ==> b & 0x3 != 0) by (bit_vector);
    assert(b & 0xc == 0xc ==> b & 0xc != 0) by (bit_vector);
    assert(b & 0x30 == 0x30 ==> b & 0x30 != 0) by (bit_vector);
    assert(b & 0xc0 == 0xc0 ==> b & 0xc0 != 0) by (bit_vector);
    assert(takes_down(event, s.hotkeys@[id], s.pressed_hotkeys@.contains(id)));
}

/// Whether messages are those of one key event: first the taps alone, then the
/// hotkeys, then the tap patterns, each at its place, and none besides.
pub open spec fn in_place(
    sent: Seq<HandyKeysEvent>,
    fired: Seq<TapAloneEvent>,
    told: Seq<HotkeyEvent>,
    emitted: Seq<TapPatternEvent>,
) -> bool {
    &&& sent.len() == fired.len() + told.len() + emitted.len()
    &&& forall|i: int|
        0 <= i < fired.len() ==> sent[i] == HandyKeysEvent::TapAlone(#[trigger] fired[i])
    &&& forall|i: int|
        0 <= i < told.len() ==> sent[fired.len() + i] == HandyKeysEvent::Hotkey(#[trigger] told[i])
    &&& forall|i: int|
        0 <= i < emitted.len() ==> sent[fired.len() + told.len() + i]
            == HandyKeysEvent::TapPattern(#[trigger] emitted[i])
}

/// Everything that a key event gave rise to is sent, each as often as it was given,
/// at its place.
pub proof fn every_event_is_sent(events: ProcessedEvents)
    ensures
        in_place(
            state::queued(events),
            events.tap_alone_events@,
            events.hotkey_events@,
            events.tap_events@,
        ),
        state::queued_taps(events.tap_alone_events@).len() == events.tap_alone_events@.len(),
        forall|i: int|
            0 <= i < events.tap_alone_events@.len() ==> state::queued_taps(
                events.tap_alone_events@,
            )[i] == HandyKeysEvent::TapAlone(#[trigger] events.tap_alone_events@[i]),
{
}

/// A key event goes through every recognizer as if each were alone: the taps that are
/// due fire, the hotkeys that it moves are told of, the patterns that it completes are
/// emitted, and each is left as it would be.
pub proof fn each_recognizer_gets_the_event(
    s: ManagerState,
    event: KeyEvent,
    now: Instant,
    given: ProcessedEvents,
    next: ManagerState,
)
    requires
        s.gives(event, now, given),
        s.becomes(event, now, next),
    ensures
        s.tap_alones@.fires(now, given.tap_alone_events@),
        s.tells(event, given.hotkey_events@),
        given.tap_events@ == s.tap_patterns@.emitted(event, now),
        next.tap_alones@ == s.tap_alones@.drained(now).after(event, now),
        next.pressed_hotkeys@ == s.pressed_after(event),
        next.tap_patterns@ == s.tap_patterns@.after(event, now),
        next.hotkeys@ == s.hotkeys@,
        next.next_id == s.next_id,
{
}

/// What is sent when a wait is over. For a key event: the taps that are due, the
/// hotkeys that it moves and the patterns that it completes, all of them and in this
/// order. For a wait without one: the taps that are due, and nothing else changes. If
/// no more will come, there is nothing to send and nothing changes.
pub proof fn wait_is_answered_in_full(
    s: ManagerState,
    reply: ListenerReply,
    now: Instant,
    r: Option<Vec<HandyKeysEvent>>,
    next: ManagerState,
)
    requires
        s.replies(reply, now, r, next),
    ensures
        match reply {
            ListenerReply::Event(event) => {
                &&& r is Some
                &&& exists|fired: Seq<TapAloneEvent>, told: Seq<HotkeyEvent>|
                    {
                        &&& #[trigger] s.tap_alones@.fires(now, fired)
                        &&& #[trigger] s.tells(event, told)
                        &&& in_place(r->0@, fired, told, s.tap_patterns@.emitted(event, now))
                    }
                &&& next.tap_alones@ == s.tap_alones@.drained(now).after(event, now)
                &&& next.pressed_hotkeys@ == s.pressed_after(event)
                &&& next.tap_patterns@ == s.tap_patterns@.after(event, now)
                &&& next.hotkeys@ == s.hotkeys@
                &&& next.next_id == s.next_id
            },
            ListenerReply::Timeout => {
                &&& r is Some
                &&& exists|fired: Seq<TapAloneEvent>| #[trigger]
                    s.tap_alones@.fires(now, fired) && in_place(
                        r->0@,
                        fired,
                        Seq::empty(),
                        Seq::empty(),
                    )
                &&& next.tap_alones@ == s.tap_alones@.drained(now)
                &&& next.pressed_hotkeys@ == s.pressed_hotkeys@
                &&& next.tap_patterns@ == s.tap_patterns@
                &&& next.hotkeys@ == s.hotkeys@
                &&& next.next_id == s.next_id
            },
            ListenerReply::Closed => r is None && next == s,
        },
{
    match reply {
        ListenerReply::Event(event) => {
            let given = choose|given: ProcessedEvents|
                #![trigger state::queued(given)]
                s.gives(event, now, given) && r->0@ == state::queued(given);
            every_event_is_sent(given);
            assert(s.tap_alones@.fires(now, given.tap_alone_events@));
            assert(s.tells(event, given.hotkey_events@));
        },
        ListenerReply::Timeout => {
            due_taps_are_drained(s, now, r->0@, next);
        },
        ListenerReply::Closed => {},
    }
}

/// Draining sends the taps that are due, all and in order, and changes nothing but the taps.
pub proof fn due_taps_are_drained(
    s: ManagerState,
    now: Instant,
    sent: Seq<HandyKeysEvent>,
    next: ManagerState,
)
    requires
        s.drains(now, sent, next),
    ensures
        exists|fired: Seq<TapAloneEvent>| #[trigger]
            s.tap_alones@.fires(now, fired) && in_place(sent, fired, Seq::empty(), Seq::empty()),
        next.tap_alones@ == s.tap_alones@.drained(now),
        next.pressed_hotkeys@ == s.pressed_hotkeys@,
        next.tap_patterns@ == s.tap_patterns@,
        next.hotkeys@ == s.hotkeys@,
        next.next_id == s.next_id,
{
    let fired = choose|fired: Seq<TapAloneEvent>|
        #![trigger state::queued_taps(fired)]
        s.tap_alones@.fires(now, fired) && sent == state::queued_taps(fired);
    assert(s.tap_alones@.fires(now, fired));
    assert forall|i: int| 0 <= i < fired.len() implies sent[i] == HandyKeysEvent::TapAlone(
        #[trigger] fired[i],
    ) by {}
}

/// The wait is the time to the deadline that comes first, none if that has passed, and
/// a tenth of a second if it is further away or there is none.
pub proof fn wait_is_the_time_to_the_first_deadline(s: ManagerState, now: Instant, nanos: u128)
    requires
        s.waits(now, nanos),
    ensures
        nanos <= 100_000_000,
        forall|id: TapAloneId|
            {
                let due = s.tap_alones@.deadline(id).nanos;
                #[trigger] s.tap_alones@.pending(id) ==> if due <= now.nanos {
                    nanos == 0
                } else {
                    nanos <= due - now.nanos
                }
            },
        nanos < 100_000_000 ==> exists|id: TapAloneId|
            {
                let due = s.tap_alones@.deadline(id).nanos;
                #[trigger] s.tap_alones@.pending(id) && if due <= now.nanos {
                    nanos == 0
                } else {
                    nanos == due - now.nanos
                }
            },
{
    if nanos < 100_000_000 {
        let id = choose|id: TapAloneId| #[trigger]
            s.tap_alones@.pending(id) && nanos == s.tap_alones@.deadline(id).nanos_since(now);
        assert(s.tap_alones@.pending(id));
    }
}

/// Whether an event is of the variant that a kind stands for, whatever it holds.
pub open spec fn variant_of(kind: EventKind, event: HandyKeysEvent) -> bool {
    match (kind, event) {
        (EventKind::Hotkey, HandyKeysEvent::Hotkey(_)) => true,
        (EventKind::TapPattern, HandyKeysEvent::TapPattern(_)) => true,
        (EventKind::TapAlone, HandyKeysEvent::TapAlone(_)) => true,
        _ => false,
    }
}

/// The last events of a list, as many as there is room for.
pub open spec fn last_kept(events: Seq<HandyKeysEvent>) -> Seq<HandyKeysEvent> {
    if events.len() <= 1024 {
        events
    } else {
        events.subrange(events.len() - 1024, events.len() as int)
    }
}

proof fn lemma_kind(kind: EventKind)
    ensures
        forall|event: HandyKeysEvent| #[trigger] kind.covers(event) <==> variant_of(kind, event),
        forall|event: HandyKeysEvent| kind.covers(event) <==> #[trigger] variant_of(kind, event),
        forall|events: Seq<HandyKeysEvent>| #[trigger]
            inbox::latest(events) == last_kept(events),
{
    assert forall|event: HandyKeysEvent| #[trigger] kind.covers(event) <==> variant_of(
        kind,
        event,
    ) by {
        match kind {
            EventKind::Hotkey => {},
            EventKind::TapPattern => {},
            EventKind::TapAlone => {},
        }
    }
    assert forall|events: Seq<HandyKeysEvent>| #[trigger] inbox::latest(events) == last_kept(
        events,
    ) by {
        assert(inbox::latest(events) =~= last_kept(events));
    }
}

/// Receiving gives the first event of the variant asked for among those kept and then
/// those coming in, and nothing only if there is none. One that was kept is taken out
/// of its place. Otherwise everything before it is kept, the oldest giving way beyond
/// the limit, and everything behind it still comes in.
pub proof fn receiving_goes_by_the_variant(
    before: EventInbox,
    kind: EventKind,
    r: Option<HandyKeysEvent>,
    after: EventInbox,
)
    requires
        before.receives(kind, r, after),
    ensures
        ({
            let kept = before.event_buffer@;
            let waiting = kept + before.incoming@;
            match r {
                Some(event) => exists|k: int|
                    {
                        &&& 0 <= k < waiting.len()
                        &&& #[trigger] waiting[k] == event
                        &&& variant_of(kind, event)
                        &&& forall|j: int| 0 <= j < k ==> !variant_of(kind, #[trigger] waiting[j])
                        &&& if k < kept.len() {
                            &&& after.event_buffer@ == kept.remove(k)
                            &&& after.incoming@ == before.incoming@
                        } else {
                            &&& after.event_buffer@ == last_kept(waiting.take(k))
                            &&& after.incoming@ == waiting.skip(k + 1)
                        }
                    },
                None => {
                    &&& forall|j: int|
                        0 <= j < waiting.len() ==> !variant_of(kind, #[trigger] waiting[j])
                    &&& after.event_buffer@ == last_kept(waiting)
                    &&& after.incoming@.len() == 0
                },
            }
        }),
{
    let kept = before.event_buffer@;
    let sent = before.incoming@;
    let waiting = kept + sent;
    lemma_kind(kind);
    kind.lemma_first_in(kept);
    kind.lemma_first_in(sent);
    let in_buffer = kind.first_in(kept) as int;
    let ahead = kind.first_in(sent) as int;
    let k = if in_buffer < kept.len() {
        in_buffer
    } else {
        kept.len() + ahead
    };
    assert forall|j: int| 0 <= j < k implies !variant_of(kind, #[trigger] waiting[j]) by {
        if j < kept.len() {
            assert(!kind.covers(kept[j]));
        } else {
            assert(!kind.covers(sent[j - kept.len()]));
        }
    }
    if in_buffer < kept.len() {
        assert(waiting[k] == kept[k]);
    } else if ahead < sent.len() {
        assert(waiting[k] == sent[ahead]);
        assert(waiting.take(k) =~= kept + sent.take(ahead));
        assert(waiting.skip(k + 1) =~= sent.skip(ahead + 1));
    }
}

/// The kept event that is taken out for a kind is the first of its variant.
pub proof fn kept_event_is_found_by_its_variant(kind: EventKind, events: Seq<HandyKeysEvent>)
    ensures
        kind.first_in(events) <= events.len(),
        forall|i: int|
            0 <= i < kind.first_in(events) ==> !variant_of(kind, #[trigger] events[i]),
        kind.first_in(events) < events.len() ==> variant_of(
            kind,
            events[kind.first_in(events) as int],
        ),
        inbox::latest(events) == last_kept(events),
{
    lemma_kind(kind);
    kind.lemma_first_in(events);
    assert forall|i: int| 0 <= i < kind.first_in(events) implies !variant_of(
        kind,
        #[trigger] events[i],
    ) by {
        assert(!kind.covers(events[i]));
    }
}

/// Receiving an event of any kind takes the oldest, whatever it is, and nothing only
/// if nothing waits. What was kept comes before what is coming in.
pub proof fn receiving_any_leaves_the_rest(
    before: EventInbox,
    r: Option<HandyKeysEvent>,
    after: EventInbox,
)
    requires
        before.receives_any(r, after),
    ensures
        r is None <==> before.event_buffer@.len() == 0 && before.incoming@.len() == 0,
        before.event_buffer@.len() > 0 ==> r == Some(before.event_buffer@[0])
            && after.event_buffer@ == before.event_buffer@.skip(1) && after.incoming@
            == before.incoming@,
        before.event_buffer@.len() == 0 && before.incoming@.len() > 0 ==> r == Some(
            before.incoming@[0],
        ) && after.incoming@ == before.incoming@.skip(1) && after.event_buffer@.len() == 0,
        r is None ==> after.event_buffer@.len() == 0 && after.incoming@.len() == 0,
{
    if before.event_buffer@.len() > 0 {
        assert(before.event_buffer@.skip(1) =~= before.event_buffer@.drop_first());
    } else if before.incoming@.len() > 0 {
        assert(before.incoming@.skip(1) =~= before.incoming@.drop_first());
    }
}

/// A hotkey is registered under the next id exactly if it is under none, and what
/// is down and the taps stay as they are; the refusal names the id it is under.
pub proof fn hotkey_registration_is_answered(
    s: ManagerState,
    hotkey: Hotkey,
    r: Result<HotkeyId, Error>,
    next: ManagerState,
)
    requires
        s.registers(hotkey, r, next),
    ensures
        r is Ok <==> forall|id: u32| #[trigger]
            s.hotkeys@.contains_key(id) ==> s.hotkeys@[id] != hotkey,
        r matches Ok(id) ==> id.0 == s.next_id && next.next_id == s.next_id + 1 && next.hotkeys@
            == s.hotkeys@.insert(s.next_id, hotkey),
        r matches Err(e) ==> next == s && exists|id: u32| #[trigger]
            s.hotkeys@.contains_key(id) && s.hotkeys@[id] == hotkey && (e matches
                Error::HotkeyAlreadyRegistered(why) && why@ == hotkey.shown() + " (id: "@ + (
            "HotkeyId("@ + text::decimal(id as nat) + ")"@) + ")"@),
        next.pressed_hotkeys@ == s.pressed_hotkeys@,
        next.tap_patterns@ == s.tap_patterns@,
        next.tap_alones@ == s.tap_alones@,
{
    if r is Err {
        let id = choose|id: u32| #[trigger]
            s.hotkeys@.contains_key(id) && s.hotkeys@[id] == hotkey && (r->Err_0
                is HotkeyAlreadyRegistered) && (r->Err_0->HotkeyAlreadyRegistered_0)@
                == hotkey.shown() + " (id: "@ + HotkeyId(id).shown() + ")"@;
        assert(s.hotkeys@.contains_key(id) && s.hotkeys@[id] == hotkey);
    } else {
        assert forall|id: u32| #[trigger] s.hotkeys@.contains_key(id) implies s.hotkeys@[id]
            != hotkey by {
            assert(!s.registered(hotkey));
        }
    }
}

/// Taking back a registration succeeds exactly if the id is in use, gives the hotkey,
/// frees the id, and leaves everything else as it is.
pub proof fn hotkey_unregistration_is_answered(
    s: ManagerState,
    id: HotkeyId,
    r: Result<Hotkey, Error>,
    next: ManagerState,
)
    requires
        s.unregisters(id, r, next),
    ensures
        r is Ok <==> s.hotkeys@.contains_key(id.0),
        r matches Ok(hotkey) ==> hotkey == s.hotkeys@[id.0] && next.hotkeys@ == s.hotkeys@.remove(
            id.0,
        ),
        r matches Err(e) ==> e == Error::HotkeyNotFound(id) && next == s,
        next.next_id == s.next_id,
        next.pressed_hotkeys@ == s.pressed_hotkeys@,
        next.tap_patterns@ == s.tap_patterns@,
        next.tap_alones@ == s.tap_alones@,
{
}

/// A new manager has nothing registered, held, pending or waiting, and counts hotkeys
/// from zero and taps from one.
pub proof fn idle_manager_is_empty(manager: HotkeyManager)
    requires
        manager.idle(),
    ensures
        forall|id: u32| !#[trigger] manager.state.hotkeys@.contains_key(id),
        forall|id: u32| !#[trigger] manager.state.pressed_hotkeys@.contains(id),
        manager.state.next_id == 0,
        forall|id: u32| !#[trigger] manager.state.tap_patterns@.patterns.contains_key(id),
        manager.state.tap_patterns@.next_id == 1,
        manager.state.tap_patterns@.active is None,
        forall|t: crate::types::TriggerKey| !#[trigger]
            manager.state.tap_patterns@.held.contains(t),
        forall|id: u32| !#[trigger] manager.state.tap_alones@.patterns.contains_key(id),
        manager.state.tap_alones@.next_id == 1,
        forall|t: crate::types::TriggerKey| !#[trigger]
            manager.state.tap_alones@.phases.contains_key(t),
        manager.inbox.event_buffer@.len() == 0,
        manager.inbox.incoming@.len() == 0,
{
}

/// What a manager keeps true: no more than 1024 events are kept, ids below the next one
/// are the only ones in use, no hotkey is registered twice, and a manager that
/// blocks blocks the registered hotkeys and no others.
pub proof fn manager_keeps_its_promises(manager: HotkeyManager)
    requires
        manager.inv(),
    ensures
        manager.inbox.event_buffer@.len() <= 1024,
        forall|id: u32| #[trigger]
            manager.state.hotkeys@.contains_key(id) ==> id < manager.state.next_id,
        forall|a: u32, b: u32|
            #![trigger manager.state.hotkeys@[a], manager.state.hotkeys@[b]]
            manager.state.hotkeys@.contains_key(a) && manager.state.hotkeys@.contains_key(b)
                && manager.state.hotkeys@[a] == manager.state.hotkeys@[b] ==> a == b,
        manager.blocking_hotkeys matches Some(blocking) ==> forall|hotkey: Hotkey| #[trigger]
            blocking@.contains(hotkey) <==> exists|id: u32| #[trigger]
                manager.state.hotkeys@.contains_key(id) && manager.state.hotkeys@[id] == hotkey,
{
    if let Some(blocking) = manager.blocking_hotkeys {
        assert forall|hotkey: Hotkey| #[trigger] blocking@.contains(hotkey) <==> exists|id: u32|
         #[trigger]
            manager.state.hotkeys@.contains_key(id) && manager.state.hotkeys@[id] == hotkey by {
            assert(blocking@.contains(hotkey) <==> manager.state.registered(hotkey));
        }
    }
}

} // verus!
