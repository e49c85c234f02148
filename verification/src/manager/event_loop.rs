//! Whole runs of the event loop.
//!
//! The loop checks that it is to go on, sends the taps that are due, waits for
//! a key event, and sends what came of the wait, over and over. Each step is a
//! call of [`ManagerState::before_wait`] or [`ManagerState::after_wait`]. What the
//! outside does is a script, with the flag, the clock and the listener's replies.

use vstd::prelude::*;

use crate::tap_alone::TapAloneModel;
use crate::tap_pattern::laws;
use crate::time::Instant;
use crate::types::{HandyKeysEvent, Hotkey, KeyEvent, TapAloneEvent, TapAloneId};

use super::state::{self, ListenerReply, ManagerState, ProcessedEvents, RECV_TIMEOUT_NANOS};

verus! {

/// What the outside does in one turn of the loop.
pub struct Cue {
    /// Whether the loop is to go on.
    pub running: bool,
    /// The time before the wait.
    pub before: Instant,
    /// What came of the wait.
    pub reply: ListenerReply,
    /// The time after the wait.
    pub after: Instant,
}

/// One turn of the loop.
pub struct Turn {
    pub cue: Cue,
    /// The state at the beginning.
    pub start: ManagerState,
    /// What is sent before the wait.
    pub drained: Seq<HandyKeysEvent>,
    /// How long the wait may be.
    pub nanos: u128,
    /// The state when the wait begins.
    pub waiting: ManagerState,
    /// The state when the wait is over; other threads may have changed it.
    pub woken: ManagerState,
    /// What is sent after the wait, or nothing if the loop stops.
    pub given: Option<Vec<HandyKeysEvent>>,
    /// The state at the end.
    pub end: ManagerState,
}

impl Turn {
    /// Whether the turn begins as the loop does.
    pub open spec fn begins(self) -> bool {
        &&& self.cue.running
        &&& self.start.drains(self.cue.before, self.drained, self.waiting)
        &&& self.waiting.waits(self.cue.before, self.nanos)
    }

    /// Whether the turn deals with what came of the wait as the loop does.
    pub open spec fn answers(self) -> bool {
        self.woken.replies(self.cue.reply, self.cue.after, self.given, self.end)
    }

    /// Whether the turn ends before the wait.
    pub open spec fn cut_short(self) -> bool {
        self.given is None && self.woken == self.waiting && self.end == self.waiting
    }

    /// Everything that the turn has to send, in order.
    pub open spec fn queued(self) -> Seq<HandyKeysEvent> {
        match self.given {
            Some(given) => self.drained + given@,
            None => self.drained,
        }
    }

    /// The key event that the turn takes in, with its time.
    pub open spec fn taken_in(self) -> Option<(KeyEvent, Instant)> {
        match (self.given, self.cue.reply) {
            (Some(_), ListenerReply::Event(event)) => Some((event, self.cue.after)),
            _ => None,
        }
    }
}

/// Everything that turns have to send, in order.
pub open spec fn messages(turns: Seq<Turn>) -> Seq<HandyKeysEvent>
    decreases turns.len(),
{
    if turns.len() == 0 {
        Seq::empty()
    } else {
        turns[0].queued() + messages(turns.drop_first())
    }
}

/// Whether the loop can take these turns and send these messages, where the outside
/// follows a script and the receiver is gone once it has taken `room` messages.
/// The loop stops when the flag is down, when a send fails, or when there is
/// nothing to wait for.
pub open spec fn runs(
    script: Seq<Cue>,
    room: nat,
    turns: Seq<Turn>,
    sent: Seq<HandyKeysEvent>,
) -> bool
    decreases script.len(),
{
    if script.len() == 0 || !script[0].running {
        turns.len() == 0 && sent.len() == 0
    } else {
        let turn = turns[0];
        let queued = turn.queued();
        &&& turns.len() > 0
        &&& turn.cue == script[0]
        &&& turn.begins()
        &&& if turn.drained.len() > room {
            turn.cut_short() && turns.len() == 1 && sent == turn.drained.take(room as int)
        } else {
            &&& turn.answers()
            &&& if turn.given is None {
                turns.len() == 1 && sent == queued
            } else if queued.len() > room {
                turns.len() == 1 && sent == queued.take(room as int)
            } else {
                &&& queued.len() <= sent.len()
                &&& sent.take(queued.len() as int) == queued
                &&& runs(
                    script.drop_first(),
                    (room - queued.len()) as nat,
                    turns.drop_first(),
                    sent.skip(queued.len() as int),
                )
            }
        }
    }
}

/// The place among the messages at which those of a turn begin.
pub open spec fn place(turns: Seq<Turn>, i: int) -> int {
    messages(turns.take(i)).len() as int
}

/// Whether a turn comes to wait: everything up to then has been sent.
pub open spec fn waits_in(turns: Seq<Turn>, room: nat, i: int) -> bool {
    place(turns, i) + turns[i].drained.len() <= room
}

/// Each turn is a step of the loop on its part of the script. One whose first
/// messages are not all taken does not wait, and is the last; so is one that
/// has nothing to wait for, or whose other messages are not all taken.
pub proof fn turns_are_steps_of_the_loop(
    script: Seq<Cue>,
    room: nat,
    turns: Seq<Turn>,
    sent: Seq<HandyKeysEvent>,
    i: int,
)
    requires
        runs(script, room, turns, sent),
        0 <= i < turns.len(),
    ensures
        i < script.len(),
        turns[i].cue == script[i],
        turns[i].begins(),
        place(turns, i) <= room,
        if waits_in(turns, room, i) {
            turns[i].answers()
        } else {
            turns[i].cut_short()
        },
        i + 1 < turns.len() ==> turns[i].given is Some && place(turns, i) + turns[i].queued().len()
            <= room,
    decreases i,
{
    if i > 0 {
        let rest = turns.drop_first();
        let queued = turns[0].queued();
        turns_are_steps_of_the_loop(
            script.drop_first(),
            (room - queued.len()) as nat,
            rest,
            sent.skip(queued.len() as int),
            i - 1,
        );
        assert(turns.take(i).drop_first() =~= rest.take(i - 1));
        assert(rest[i - 1] == turns[i]);
    }
}

/// The messages of a turn stand at its place, and those of the next turn behind them.
proof fn lemma_place(turns: Seq<Turn>, i: int)
    requires
        0 <= i < turns.len(),
    ensures
        0 <= place(turns, i),
        place(turns, i + 1) == place(turns, i) + turns[i].queued().len(),
        place(turns, i + 1) <= messages(turns).len(),
        messages(turns).subrange(place(turns, i), place(turns, i + 1)) == turns[i].queued(),
    decreases i,
{
    let rest = turns.drop_first();
    let queued = turns[0].queued();
    assert(turns.take(i + 1).drop_first() =~= rest.take(i));
    if i == 0 {
        assert(messages(rest.take(0)) =~= Seq::empty());
        assert(messages(turns).subrange(0, queued.len() as int) =~= queued);
    } else {
        assert(turns.take(i).drop_first() =~= rest.take(i - 1));
        lemma_place(rest, i - 1);
        assert(rest[i - 1] == turns[i]);
        let from = place(rest, i - 1);
        let to = place(rest, i);
        assert(messages(turns).subrange(queued.len() + from, queued.len() + to) =~= messages(
            rest,
        ).subrange(from, to));
    }
}

/// What is sent is what the turns have to send, in order, up to the first send that fails.
pub proof fn messages_are_sent_in_order(
    script: Seq<Cue>,
    room: nat,
    turns: Seq<Turn>,
    sent: Seq<HandyKeysEvent>,
)
    requires
        runs(script, room, turns, sent),
    ensures
        sent == (if messages(turns).len() <= room {
            messages(turns)
        } else {
            messages(turns).take(room as int)
        }),
    decreases script.len(),
{
    if script.len() == 0 || !script[0].running {
        assert(sent =~= messages(turns));
    } else {
        let rest = turns.drop_first();
        let queued = turns[0].queued();
        if turns[0].drained.len() <= room && turns[0].given is Some && queued.len() <= room {
            let left = (room - queued.len()) as nat;
            messages_are_sent_in_order(
                script.drop_first(),
                left,
                rest,
                sent.skip(queued.len() as int),
            );
            assert(sent =~= queued + sent.skip(queued.len() as int));
            if messages(turns).len() > room {
                assert(sent =~= messages(turns).take(room as int));
            }
        } else {
            assert(messages(rest) =~= Seq::empty());
            assert(messages(turns) =~= queued);
        }
    }
}

/// Before each wait every tap that is due has been sent and none is left that is
/// due, and the wait is within its limit and over by the next deadline.
pub proof fn due_taps_are_sent_before_each_wait(
    script: Seq<Cue>,
    room: nat,
    turns: Seq<Turn>,
    sent: Seq<HandyKeysEvent>,
    i: int,
)
    requires
        runs(script, room, turns, sent),
        0 <= i < turns.len(),
        waits_in(turns, room, i),
    ensures
        ({
            let turn = turns[i];
            let from = place(turns, i);
            let to = from + turn.drained.len();
            &&& 0 <= from && to <= sent.len()
            &&& sent.subrange(from, to) == turn.drained
            &&& forall|id: TapAloneId| #[trigger]
                turn.start.tap_alones@.due(id, script[i].before) ==> exists|k: int|
                    from <= k < to && #[trigger] sent[k] == HandyKeysEvent::TapAlone(
                        TapAloneEvent { id },
                    )
            &&& forall|id: TapAloneId| !#[trigger]
                turn.waiting.tap_alones@.due(id, script[i].before)
            &&& turn.nanos <= RECV_TIMEOUT_NANOS
            &&& forall|id: TapAloneId| #[trigger]
                turn.waiting.tap_alones@.pending(id) ==> script[i].before.nanos + turn.nanos
                    <= turn.waiting.tap_alones@.deadline(id).nanos
        }),
{
    turns_are_steps_of_the_loop(script, room, turns, sent, i);
    messages_are_sent_in_order(script, room, turns, sent);
    lemma_place(turns, i);
    let turn = turns[i];
    let before = script[i].before;
    let from = place(turns, i);
    let to = from + turn.drained.len();
    let whole = messages(turns).subrange(from, place(turns, i + 1));
    assert(sent.subrange(from, to) =~= turn.drained) by {
        assert forall|k: int| from <= k < to implies #[trigger] sent[k] == turn.drained[k
            - from] by {
            assert(whole[k - from] == messages(turns)[k]);
        }
    }
    assert forall|id: TapAloneId| #[trigger]
        turn.start.tap_alones@.due(id, before) implies exists|k: int|
        from <= k < to && #[trigger] sent[k] == HandyKeysEvent::TapAlone(
            TapAloneEvent { id },
        ) by {
        let fired = choose|fired: Seq<TapAloneEvent>|
            #![trigger state::queued_taps(fired)]
            turn.start.tap_alones@.fires(before, fired) && turn.drained == state::queued_taps(
                fired,
            );
        let j = choose|j: int| 0 <= j < fired.len() && (#[trigger] fired[j]).id == id;
        assert(turn.drained[j] == HandyKeysEvent::TapAlone(fired[j]));
        assert(sent.subrange(from, to)[j] == sent[from + j]);
    }
}

/// A key event is put through as one event, and what it gives rise to is what is
/// sent after its wait. A wait without one only fires the taps that are due. If no
/// more events will come, nothing is sent or changed, and the turn is the last.
pub proof fn each_reply_is_dealt_with(
    script: Seq<Cue>,
    room: nat,
    turns: Seq<Turn>,
    sent: Seq<HandyKeysEvent>,
    i: int,
)
    requires
        runs(script, room, turns, sent),
        0 <= i < turns.len(),
        waits_in(turns, room, i),
    ensures
        ({
            let turn = turns[i];
            let from = place(turns, i) + turn.drained.len();
            let to = place(turns, i) + turn.queued().len();
            let answer = turn.queued().skip(turn.drained.len() as int);
            &&& from <= sent.len()
            &&& to <= room ==> to <= sent.len() && sent.subrange(from, to) == answer
            &&& to > room ==> i + 1 == turns.len() && sent.skip(from) == answer.take(room - from)
            &&& match script[i].reply {
                ListenerReply::Event(event) => {
                    &&& exists|given: ProcessedEvents|
                        #![trigger state::queued(given)]
                        turn.woken.gives(event, script[i].after, given) && answer == state::queued(
                            given,
                        )
                    &&& turn.woken.becomes(event, script[i].after, turn.end)
                },
                ListenerReply::Timeout => turn.woken.drains(script[i].after, answer, turn.end),
                ListenerReply::Closed => {
                    &&& answer.len() == 0
                    &&& turn.end == turn.woken
                    &&& i + 1 == turns.len()
                    &&& sent.len() == from
                },
            }
        }),
{
    turns_are_steps_of_the_loop(script, room, turns, sent, i);
    messages_are_sent_in_order(script, room, turns, sent);
    lemma_place(turns, i);
    let turn = turns[i];
    let start = place(turns, i);
    let from = start + turn.drained.len();
    let to = start + turn.queued().len();
    let answer = turn.queued().skip(turn.drained.len() as int);
    let whole = messages(turns).subrange(start, to);
    if let Some(given) = turn.given {
        assert(answer =~= given@);
    }
    assert forall|k: int| from <= k < to implies #[trigger] messages(turns)[k] == answer[k
        - from] by {
        assert(whole[k - start] == messages(turns)[k]);
    }
    if i + 1 == turns.len() {
        assert(turns.take(i + 1) =~= turns);
    }
    if to <= room {
        assert(sent.subrange(from, to) =~= answer);
    } else {
        assert(sent.skip(from) =~= answer.take(room - from));
    }
}

/// The loop goes on as long as the flag is up, more events can come and every
/// message is taken, and it stops as soon as one of these fails.
pub proof fn loop_goes_on_until_it_has_to_stop(
    script: Seq<Cue>,
    room: nat,
    turns: Seq<Turn>,
    sent: Seq<HandyKeysEvent>,
)
    requires
        runs(script, room, turns, sent),
    ensures
        turns.len() <= script.len(),
        forall|i: int| 0 <= i < turns.len() ==> (#[trigger] script[i]).running,
        forall|i: int|
            0 <= i < turns.len() - 1 ==> !((#[trigger] script[i]).reply is Closed) && place(
                turns,
                i + 1,
            ) <= room,
        turns.len() < script.len() ==> {
            ||| !script[turns.len() as int].running
            ||| turns.len() > 0 && script[turns.len() - 1].reply is Closed
            ||| messages(turns).len() > room
        },
    decreases script.len(),
{
    if script.len() > 0 && script[0].running {
        let rest = turns.drop_first();
        let queued = turns[0].queued();
        if turns[0].drained.len() <= room && turns[0].given is Some && queued.len() <= room {
            loop_goes_on_until_it_has_to_stop(
                script.drop_first(),
                (room - queued.len()) as nat,
                rest,
                sent.skip(queued.len() as int),
            );
            if rest.len() > 0 {
                assert(script.drop_first()[rest.len() - 1] == script[turns.len() - 1]);
            }
        } else {
            assert(messages(rest) =~= Seq::empty());
            assert(messages(turns) =~= queued);
        }
    }
    if turns.len() > script.len() {
        turns_are_steps_of_the_loop(script, room, turns, sent, script.len() as int);
    }
    assert forall|i: int| 0 <= i < turns.len() implies (#[trigger] script[i]).running by {
        turns_are_steps_of_the_loop(script, room, turns, sent, i);
    }
    assert forall|i: int| 0 <= i < turns.len() - 1 implies !((#[trigger] script[i]).reply is Closed)
        && place(turns, i + 1) <= room by {
        turns_are_steps_of_the_loop(script, room, turns, sent, i);
        lemma_place(turns, i);
    }
}

/// Once the flag is down or no more events will come, whatever the script holds
/// behind makes no difference: no turn follows, and nothing more is sent.
pub proof fn nothing_follows_a_stop(
    script: Seq<Cue>,
    later: Seq<Cue>,
    room: nat,
    turns: Seq<Turn>,
    sent: Seq<HandyKeysEvent>,
    k: int,
)
    requires
        0 <= k < script.len(),
        !script[k].running || script[k].reply is Closed,
    ensures
        runs(script + later, room, turns, sent) <==> runs(script, room, turns, sent),
        runs(script, room, turns, sent) ==> turns.len() <= (if script[k].running {
            k + 1
        } else {
            k
        }),
    decreases k,
{
    let all = script + later;
    assert(all[0] == script[0]);
    if k > 0 && turns.len() > 0 {
        let queued = turns[0].queued();
        assert(all.drop_first() =~= script.drop_first() + later);
        assert(script.drop_first()[k - 1] == script[k]);
        nothing_follows_a_stop(
            script.drop_first(),
            later,
            (room - queued.len()) as nat,
            turns.drop_first(),
            sent.skip(queued.len() as int),
            k - 1,
        );
    }
}

/// A send that fails is the last: as many messages are sent as the receiver took,
/// and what the script holds behind the turn makes no difference.
pub proof fn nothing_follows_a_failed_send(
    script: Seq<Cue>,
    later: Seq<Cue>,
    room: nat,
    turns: Seq<Turn>,
    sent: Seq<HandyKeysEvent>,
)
    requires
        runs(script, room, turns, sent),
        messages(turns).len() > room,
    ensures
        sent.len() == room,
        runs(script.take(turns.len() as int) + later, room, turns, sent),
    decreases script.len(),
{
    loop_goes_on_until_it_has_to_stop(script, room, turns, sent);
    messages_are_sent_in_order(script, room, turns, sent);
    let other = script.take(turns.len() as int) + later;
    assert(turns.len() > 0);
    assert(other[0] == script[0]);
    let rest = turns.drop_first();
    let queued = turns[0].queued();
    if turns[0].drained.len() <= room && turns[0].given is Some && queued.len() <= room {
        nothing_follows_a_failed_send(
            script.drop_first(),
            later,
            (room - queued.len()) as nat,
            rest,
            sent.skip(queued.len() as int),
        );
        assert(other.drop_first() =~= script.drop_first().take(rest.len() as int) + later);
    }
}

/// Whether nobody but the loop changes the state during turns.
pub open spec fn undisturbed(turns: Seq<Turn>) -> bool {
    &&& forall|i: int| 0 <= i < turns.len() ==> (#[trigger] turns[i]).woken == turns[i].waiting
    &&& forall|i: int, j: int|
        0 <= i && j == i + 1 && j < turns.len() ==> (#[trigger] turns[j]).start == (
        #[trigger] turns[i]).end
}

/// The key events that turns take in, in order.
pub open spec fn taken_in(turns: Seq<Turn>) -> Seq<(KeyEvent, Instant)>
    decreases turns.len(),
{
    if turns.len() == 0 {
        Seq::empty()
    } else {
        match turns.last().taken_in() {
            Some(event) => taken_in(turns.drop_last()).push(event),
            None => taken_in(turns.drop_last()),
        }
    }
}

/// The key events that a script holds, in the order of their arrival.
pub open spec fn arrivals(script: Seq<Cue>) -> Seq<(KeyEvent, Instant)>
    decreases script.len(),
{
    if script.len() == 0 {
        Seq::empty()
    } else {
        match script.last().reply {
            ListenerReply::Event(event) => arrivals(script.drop_last()).push(
                (event, script.last().after),
            ),
            _ => arrivals(script.drop_last()),
        }
    }
}

/// The hotkeys that are down after key events.
pub open spec fn pressed_after_all(
    hotkeys: Map<u32, Hotkey>,
    pressed: Set<u32>,
    events: Seq<(KeyEvent, Instant)>,
) -> Set<u32>
    decreases events.len(),
{
    if events.len() == 0 {
        pressed
    } else {
        let before = pressed_after_all(hotkeys, pressed, events.drop_last());
        let event = events.last().0;
        Set::new(
            |id: u32|
                if hotkeys.contains_key(id) && state::moves(
                    event,
                    hotkeys[id],
                    before.contains(id),
                ) {
                    event.is_key_down
                } else {
                    before.contains(id)
                },
        )
    }
}

/// The taps after turns: those that are due fire before and after each wait, and
/// then the key event is taken in.
pub open spec fn taps_after_all(m: TapAloneModel, turns: Seq<Turn>) -> TapAloneModel
    decreases turns.len(),
{
    if turns.len() == 0 {
        m
    } else {
        let turn = turns.last();
        let waiting = taps_after_all(m, turns.drop_last()).drained(turn.cue.before);
        match (turn.given, turn.cue.reply) {
            (Some(_), ListenerReply::Event(event)) => waiting.drained(turn.cue.after).after(
                event,
                turn.cue.after,
            ),
            (Some(_), _) => waiting.drained(turn.cue.after),
            (None, _) => waiting,
        }
    }
}

/// Every key event that arrives while the loop waits is taken in, once and in the
/// order of arrival: where nobody else changes the state, hotkeys, tap patterns and
/// taps are after the run as these events leave them one after the other.
pub proof fn each_event_is_taken_in_once_in_order(
    script: Seq<Cue>,
    room: nat,
    turns: Seq<Turn>,
    sent: Seq<HandyKeysEvent>,
)
    requires
        runs(script, room, turns, sent),
        turns.len() > 0,
    ensures
        taken_in(turns) == arrivals(
            script.take(
                if waits_in(turns, room, turns.len() - 1) {
                    turns.len() as int
                } else {
                    turns.len() - 1
                },
            ),
        ),
        undisturbed(turns) ==> {
            let start = turns[0].start;
            let end = turns.last().end;
            &&& end.hotkeys == start.hotkeys
            &&& end.next_id == start.next_id
            &&& end.pressed_hotkeys@ == pressed_after_all(
                start.hotkeys@,
                start.pressed_hotkeys@,
                taken_in(turns),
            )
            &&& end.tap_patterns@ == laws::run(
                start.tap_patterns@,
                taken_in(turns),
            )
            &&& end.tap_alones@ == taps_after_all(start.tap_alones@, turns)
        },
{
    lemma_first_turns(script, room, turns, sent, turns.len() as int);
    assert(turns.take(turns.len() as int) =~= turns);
}

/// The first turns of a run take in their events once and in order.
proof fn lemma_first_turns(
    script: Seq<Cue>,
    room: nat,
    turns: Seq<Turn>,
    sent: Seq<HandyKeysEvent>,
    n: int,
)
    requires
        runs(script, room, turns, sent),
        0 < n <= turns.len(),
    ensures
        taken_in(turns.take(n)) == arrivals(
            script.take(
                if waits_in(turns, room, n - 1) {
                    n
                } else {
                    n - 1
                },
            ),
        ),
        undisturbed(turns) ==> {
            let start = turns[0].start;
            let end = turns[n - 1].end;
            let events = taken_in(turns.take(n));
            &&& end.hotkeys == start.hotkeys
            &&& end.next_id == start.next_id
            &&& end.pressed_hotkeys@ == pressed_after_all(
                start.hotkeys@,
                start.pressed_hotkeys@,
                events,
            )
            &&& end.tap_patterns@ == laws::run(start.tap_patterns@, events)
            &&& end.tap_alones@ == taps_after_all(start.tap_alones@, turns.take(n))
        },
    decreases n,
{
    let i = n - 1;
    let turn = turns[i];
    turns_are_steps_of_the_loop(script, room, turns, sent, i);
    assert(turns.take(n).drop_last() =~= turns.take(i));
    assert(script.take(n).drop_last() =~= script.take(i));
    assert(script.take(n).last() == script[i]);
    if i > 0 {
        lemma_first_turns(script, room, turns, sent, i);
        turns_are_steps_of_the_loop(script, room, turns, sent, i - 1);
        assert(waits_in(turns, room, i - 1));
        assert(undisturbed(turns) ==> turn.start == turns[i - 1].end);
    } else {
        assert(turns.take(0) =~= Seq::empty());
        assert(script.take(0) =~= Seq::empty());
    }
    assert(turns.take(n).last() == turn);
    assert(taken_in(turns.take(i)) == arrivals(script.take(i)));
    if waits_in(turns, room, i) {
        assert(turn.answers());
        assert(turn.given is None <==> script[i].reply is Closed);
    }
    if undisturbed(turns) {
        assert(turn.woken == turn.waiting);
        let start = turns[0].start;
        let before = taken_in(turns.take(i));
        let pressed = pressed_after_all(start.hotkeys@, start.pressed_hotkeys@, before);
        assert(turn.start.pressed_hotkeys@ == pressed);
        assert(turn.start.tap_patterns@ == laws::run(
            start.tap_patterns@,
            before,
        ));
        assert(turn.start.tap_alones@ == taps_after_all(start.tap_alones@, turns.take(i)));
        if let Some((event, at)) = turn.taken_in() {
            let events = before.push((event, at));
            assert(events.drop_last() =~= before);
            assert(turn.woken.becomes(event, at, turn.end));
            assert(turn.end.pressed_hotkeys@ =~= pressed_after_all(
                start.hotkeys@,
                start.pressed_hotkeys@,
                events,
            ));
        }
    }
}

} // verus!
