//! The promises of the library on runs of events and calls.

use handy_keys::manager::inbox::EventInbox;
use handy_keys::manager::state::{drain_expired_tap_alones, recv_timeout_for_state};
use handy_keys::manager::{
    HotkeyManager, ListenerReply, ManagerState, EVENT_BUFFER_LIMIT,
};
use handy_keys::tap_alone::TapAloneRecognizer;
use handy_keys::tap_pattern::TapPatternRecognizer;
use handy_keys::time::{Duration, Instant};
use handy_keys::types::{
    HandyKeysEvent, Hotkey, HotkeyEvent, HotkeyId, HotkeyState, InputActivity, Key, KeyEvent,
    Modifiers, MouseButtonActivity, TapAlone, TapAloneEvent, TapAloneId, TapPattern,
    TapPatternEvent, TapPatternId, TriggerKey,
};
use handy_keys::Error;

fn at(millis: u64) -> Instant {
    Instant::from_nanos(0) + Duration::from_millis(millis)
}

fn key_event(key: Key, is_key_down: bool) -> KeyEvent {
    KeyEvent {
        modifiers: Modifiers::empty(),
        key: Some(key),
        is_key_down,
        changed_modifier: None,
        activity: None,
    }
}

fn activity_event(activity: InputActivity) -> KeyEvent {
    KeyEvent {
        modifiers: Modifiers::empty(),
        key: None,
        is_key_down: true,
        changed_modifier: None,
        activity: Some(activity),
    }
}

fn tap_alone(key: Key) -> TapAlone {
    TapAlone::new(
        TriggerKey::Key(key),
        Duration::from_millis(1000),
        Duration::from_millis(250),
    )
    .unwrap()
}

fn double_tap(key: Key) -> TapPattern {
    TapPattern::double_tap(TriggerKey::Key(key), Duration::from_millis(250)).unwrap()
}

fn hotkey_event(id: u32) -> HandyKeysEvent {
    HandyKeysEvent::Hotkey(HotkeyEvent { id: HotkeyId(id), state: HotkeyState::Pressed })
}

fn tap_event(id: u32) -> HandyKeysEvent {
    HandyKeysEvent::TapAlone(TapAloneEvent { id: TapAloneId::from_u32(id) })
}

fn pattern_event(id: u32) -> HandyKeysEvent {
    HandyKeysEvent::TapPattern(TapPatternEvent {
        id: TapPatternId::from_u32(id),
        tap_count: 2,
        is_key_down: true,
    })
}

#[test]
fn times_are_counted_in_nanoseconds() {
    assert_eq!(Duration::from_millis(250).nanos, 250_000_000);
    assert_eq!((at(3) + Duration::from_millis(2)).nanos, 5_000_000);
    assert_eq!(at(5).checked_duration_since(at(3)), Some(Duration::from_millis(2)));
    assert_eq!(at(3).checked_duration_since(at(3)), Some(Duration::zero()));
    assert_eq!(at(3).checked_duration_since(at(5)), None);
    assert_eq!(at(3).saturating_duration_since(at(5)), Duration::zero());
    assert_eq!(at(5).saturating_duration_since(at(3)), Duration::from_millis(2));
    assert!(Duration::zero().is_zero());
    assert!(!Duration::from_millis(1).is_zero());
}

#[test]
fn modifiers_match_side_by_side() {
    let either = Modifiers::ctrl();
    assert!(either.matches(Modifiers::ctrl_left()));
    assert!(either.matches(Modifiers::ctrl_right()));
    assert!(either.matches(Modifiers::ctrl()));
    assert!(!either.matches(Modifiers::empty()));
    assert!(!either.matches(Modifiers::ctrl_left() | Modifiers::opt_left()));
    assert!(Modifiers::opt_left().matches(Modifiers::opt_left()));
    assert!(!Modifiers::opt_left().matches(Modifiers::opt()));
    assert!(Modifiers::function().matches(Modifiers::function()));
    assert!(!Modifiers::function().matches(Modifiers::empty()));
    assert!(!Modifiers::empty().matches(Modifiers::function()));
    assert_eq!(Modifiers::shift().count(), 2);
    assert_eq!((!Modifiers::shift_left() & Modifiers::shift()).bits(), Modifiers::shift_right().bits());
}

#[test]
fn tap_fires_once_however_often_the_key_repeats() {
    let mut recognizer = TapAloneRecognizer::new();
    let id = recognizer.register(tap_alone(Key::D)).unwrap();
    recognizer.process_event_at(&key_event(Key::D, true), at(0));
    for i in 1..20 {
        assert!(recognizer.process_event_at(&key_event(Key::D, true), at(10 * i)).is_empty());
    }
    recognizer.process_event_at(&key_event(Key::D, false), at(500));
    for i in 0..20 {
        let other = key_event(Key::F, i % 2 == 0);
        assert!(recognizer.process_event_at(&other, at(510 + 10 * i)).is_empty());
    }
    assert!(recognizer
        .process_event_at(&activity_event(InputActivity::ScrollWheel), at(749))
        .is_empty());
    assert_eq!(recognizer.drain_expired_at(at(750)), vec![TapAloneEvent { id }]);
    assert!(recognizer.drain_expired_at(at(750)).is_empty());
    assert!(recognizer.drain_expired_at(at(9999)).is_empty());
}

#[test]
fn disturbed_press_stays_disturbed_until_release() {
    let mut recognizer = TapAloneRecognizer::new();
    let id = recognizer.register(tap_alone(Key::D)).unwrap();
    recognizer.process_event_at(&key_event(Key::D, true), at(0));
    recognizer.process_event_at(
        &activity_event(InputActivity::MouseButtonDown(MouseButtonActivity::Right)),
        at(1),
    );
    recognizer.process_event_at(&key_event(Key::D, true), at(2));
    recognizer.process_event_at(&key_event(Key::D, false), at(3));
    assert!(recognizer.drain_expired_at(at(1000)).is_empty());

    recognizer.process_event_at(&key_event(Key::D, true), at(1000));
    recognizer.process_event_at(
        &activity_event(InputActivity::MouseButtonUp(MouseButtonActivity::Right)),
        at(1001),
    );
    recognizer.process_event_at(&key_event(Key::D, false), at(1002));
    assert_eq!(recognizer.drain_expired_at(at(2000)), vec![TapAloneEvent { id }]);
}

#[test]
fn equal_deadlines_fire_in_the_order_of_ids() {
    let mut recognizer = TapAloneRecognizer::new();
    recognizer.register_with_id(TapAloneId::from_u32(9), tap_alone(Key::D)).unwrap();
    let later = TapAlone::new(
        TriggerKey::Key(Key::F),
        Duration::from_millis(1000),
        Duration::from_millis(150),
    )
    .unwrap();
    recognizer.register_with_id(TapAloneId::from_u32(4), later).unwrap();
    recognizer.process_event_at(&key_event(Key::D, true), at(0));
    recognizer.process_event_at(&key_event(Key::D, false), at(100));
    assert_eq!(recognizer.next_deadline_at(), Some(at(350)));
    recognizer.process_event_at(&key_event(Key::F, true), at(110));
    recognizer.process_event_at(&key_event(Key::F, false), at(200));
    assert_eq!(recognizer.next_deadline_at(), Some(at(350)));
    assert!(recognizer.drain_expired_at(at(349)).is_empty());
    let ids: Vec<u32> =
        recognizer.drain_expired_at(at(350)).iter().map(|event| event.id.as_u32()).collect();
    assert_eq!(ids, vec![4, 9]);
    assert_eq!(recognizer.next_deadline_at(), None);
}

#[test]
fn ids_run_out_at_the_largest() {
    let mut recognizer = TapAloneRecognizer::new();
    recognizer.register_with_id(TapAloneId::from_u32(u32::MAX), tap_alone(Key::A)).unwrap();
    assert_eq!(
        recognizer.register(tap_alone(Key::B)),
        Err(Error::TapAloneAlreadyRegistered("id TapAloneId(4294967295)".to_string()))
    );
    recognizer.unregister(TapAloneId::from_u32(u32::MAX)).unwrap();
    assert_eq!(recognizer.register(tap_alone(Key::B)), Ok(TapAloneId::from_u32(u32::MAX)));
    assert_eq!(recognizer.count(), 1);
}

#[test]
fn refused_registration_uses_up_an_id() {
    let mut alones = TapAloneRecognizer::new();
    assert_eq!(alones.register(tap_alone(Key::A)), Ok(TapAloneId::from_u32(1)));
    assert!(alones.register(tap_alone(Key::A)).is_err());
    assert_eq!(alones.register(tap_alone(Key::B)), Ok(TapAloneId::from_u32(3)));
    let mut patterns = TapPatternRecognizer::new();
    assert_eq!(patterns.register(double_tap(Key::A)), Ok(TapPatternId::from_u32(1)));
    assert!(patterns.register(double_tap(Key::A)).is_err());
    assert_eq!(patterns.register(double_tap(Key::B)), Ok(TapPatternId::from_u32(3)));
}

#[test]
fn patterns_can_be_looked_up_until_they_are_taken_back() {
    let mut recognizer = TapPatternRecognizer::default();
    let id = TapPatternId::from_u32(40);
    recognizer.register_with_id(id, double_tap(Key::A)).unwrap();
    assert_eq!(recognizer.get(id), Some(double_tap(Key::A)));
    assert_eq!(recognizer.register(double_tap(Key::B)), Ok(TapPatternId::from_u32(41)));
    assert_eq!(recognizer.count(), 2);
    recognizer.unregister(id).unwrap();
    assert_eq!(recognizer.get(id), None);
    assert_eq!(recognizer.count(), 1);
}

#[test]
fn double_tap_needs_the_time_to_go_forward_and_not_too_far() {
    for (second_at, expected) in [(1250, 1), (1251, 0), (1000, 1), (999, 0)] {
        let mut recognizer = TapPatternRecognizer::new();
        recognizer.register(double_tap(Key::D)).unwrap();
        recognizer.process_event_at(&key_event(Key::D, true), at(1000));
        recognizer.process_event_at(&key_event(Key::D, false), at(1000));
        let emitted = recognizer.process_event_at(&key_event(Key::D, true), at(second_at));
        assert_eq!(emitted.len(), expected);
    }
}

#[test]
fn another_registered_trigger_starts_its_own_taps() {
    let mut recognizer = TapPatternRecognizer::new();
    recognizer.register(double_tap(Key::D)).unwrap();
    recognizer.register(double_tap(Key::F)).unwrap();
    recognizer.process_event_at(&key_event(Key::D, true), at(0));
    recognizer.process_event_at(&key_event(Key::D, false), at(10));
    recognizer.process_event_at(&key_event(Key::F, true), at(20));
    recognizer.process_event_at(&key_event(Key::F, false), at(30));
    assert!(recognizer.process_event_at(&key_event(Key::D, true), at(40)).is_empty());
}

#[test]
fn key_release_undoes_a_press_whatever_modifiers_are_held() {
    let mut state = ManagerState::new();
    let hotkey = Hotkey::new(Modifiers::cmd(), Some(Key::K)).unwrap();
    let id = state.register(hotkey).unwrap();
    let mut press = key_event(Key::K, true);
    press.modifiers = Modifiers::cmd_right();
    let pressed = state.process_event(&press);
    assert_eq!(pressed, vec![HotkeyEvent { id, state: HotkeyState::Pressed }]);
    let released = state.process_event(&key_event(Key::K, false));
    assert_eq!(released, vec![HotkeyEvent { id, state: HotkeyState::Released }]);
    assert!(state.pressed_hotkeys.is_empty());
    assert!(state.process_event(&key_event(Key::K, false)).is_empty());
}

#[test]
fn several_hotkeys_can_move_at_once() {
    let mut state = ManagerState::new();
    let left = state.register(Hotkey::new(Modifiers::cmd_left(), Some(Key::K)).unwrap()).unwrap();
    let either = state.register(Hotkey::new(Modifiers::cmd(), Some(Key::K)).unwrap()).unwrap();
    let mut press = key_event(Key::K, true);
    press.modifiers = Modifiers::cmd_left();
    let mut ids: Vec<u32> = state.process_event(&press).iter().map(|event| event.id.0).collect();
    ids.sort();
    assert_eq!(ids, vec![left.0, either.0]);
}

#[test]
fn blocked_hotkeys_follow_registration() {
    let mut manager = HotkeyManager::new_with_blocking();
    let first = Hotkey::new(Modifiers::cmd(), Some(Key::K)).unwrap();
    let second = Hotkey::new(Modifiers::empty(), Some(Key::F1)).unwrap();
    let first_id = manager.register(first).unwrap();
    let second_id = manager.register(second).unwrap();
    assert!(manager.register(first).is_err());
    assert!(manager.is_blocked(first) && manager.is_blocked(second));
    manager.unregister(first_id).unwrap();
    assert!(!manager.is_blocked(first) && manager.is_blocked(second));
    assert_eq!(manager.register(first), Ok(HotkeyId(second_id.0 + 1)));
    assert!(manager.is_blocked(first));

    let mut open = HotkeyManager::new();
    open.register(first).unwrap();
    assert!(!open.is_blocked(first));
}

#[test]
fn manager_keeps_the_three_registries_apart() {
    let mut manager = HotkeyManager::new();
    let hotkey = Hotkey::new(Modifiers::empty(), Some(Key::D)).unwrap();
    let id = manager.register(hotkey).unwrap();
    let pattern_id = manager.register_tap_pattern(double_tap(Key::D)).unwrap();
    let alone_id = manager.register_tap_alone(tap_alone(Key::D)).unwrap();
    assert_eq!(
        (manager.hotkey_count(), manager.tap_pattern_count(), manager.tap_alone_count()),
        (1, 1, 1)
    );
    assert_eq!(manager.get_hotkey(id), Some(hotkey));
    assert_eq!(manager.get_tap_pattern(pattern_id), Some(double_tap(Key::D)));
    assert_eq!(manager.get_tap_alone(alone_id), Some(tap_alone(Key::D)));
    manager.unregister_tap_pattern(pattern_id).unwrap();
    manager.unregister_tap_alone(alone_id).unwrap();
    manager.unregister(id).unwrap();
    assert_eq!(manager.get_hotkey(id), None);
    assert_eq!(manager.get_tap_pattern(pattern_id), None);
    assert_eq!(manager.get_tap_alone(alone_id), None);
    assert_eq!(
        manager.unregister_tap_alone(alone_id),
        Err(Error::TapAloneNotFound(alone_id))
    );
}

#[test]
fn event_loop_fires_taps_on_every_turn() {
    let mut manager = HotkeyManager::new();
    let hotkey = manager.register(Hotkey::new(Modifiers::empty(), Some(Key::F)).unwrap()).unwrap();
    let alone = manager.register_tap_alone(tap_alone(Key::D)).unwrap();
    let (sent, wait) = manager.before_wait(at(0));
    assert!(sent.is_empty());
    assert_eq!(wait, Duration::from_millis(100));

    manager.after_wait(ListenerReply::Event(key_event(Key::D, true)), at(10)).unwrap();
    manager.after_wait(ListenerReply::Event(key_event(Key::D, false)), at(20)).unwrap();
    assert_eq!(manager.before_wait(at(200)).1, Duration::from_millis(70));
    assert_eq!(manager.after_wait(ListenerReply::Timeout, at(269)), Some(vec![]));
    assert_eq!(
        manager.after_wait(ListenerReply::Event(key_event(Key::F, true)), at(270)),
        Some(vec![tap_event(alone.as_u32()), hotkey_event(hotkey.0)])
    );
    assert_eq!(manager.after_wait(ListenerReply::Timeout, at(271)), Some(vec![]));
    assert_eq!(manager.after_wait(ListenerReply::Closed, at(272)), None);
}

#[test]
fn wait_ends_at_once_when_a_tap_is_due() {
    let mut state = ManagerState::new();
    let id = state.tap_alones.register(tap_alone(Key::D)).unwrap();
    state.process_all_events(&key_event(Key::D, true), at(0));
    state.process_all_events(&key_event(Key::D, false), at(0));
    assert_eq!(recv_timeout_for_state(&state, at(300)), Duration::zero());
    assert_eq!(drain_expired_tap_alones(&mut state, at(300)), vec![tap_event(id.as_u32())]);
    assert_eq!(recv_timeout_for_state(&state, at(300)), Duration::from_millis(100));
}

#[test]
fn typed_receivers_leave_other_events_in_order() {
    let mut inbox = EventInbox::new();
    for event in [pattern_event(1), hotkey_event(2), tap_event(3), hotkey_event(4), pattern_event(5)] {
        inbox.deliver(event);
    }
    assert_eq!(inbox.try_recv_tap_alone().map(|event| event.id.as_u32()), Some(3));
    assert_eq!(inbox.event_buffer.len(), 2);
    assert_eq!(inbox.try_recv().map(|event| event.id.0), Some(2));
    assert_eq!(inbox.try_recv().map(|event| event.id.0), Some(4));
    assert_eq!(inbox.try_recv(), None);
    assert_eq!(inbox.try_recv_tap_pattern().map(|event| event.id.as_u32()), Some(1));
    assert_eq!(inbox.try_recv_event(), Some(pattern_event(5)));
    assert_eq!(inbox.try_recv_event(), None);
}

#[test]
fn oldest_events_give_way_when_the_buffer_is_full() {
    let mut manager = HotkeyManager::new();
    for i in 0..(EVENT_BUFFER_LIMIT + 2) {
        manager.deliver(tap_event(i as u32));
    }
    assert_eq!(manager.try_recv_tap_pattern(), None);
    assert_eq!(manager.try_recv_event(), Some(tap_event(2)));
    assert_eq!(manager.inbox.event_buffer.len(), EVENT_BUFFER_LIMIT - 1);
    assert_eq!(
        manager.inbox.event_buffer.back().copied(),
        Some(tap_event(EVENT_BUFFER_LIMIT as u32 + 1))
    );
}

#[test]
fn unregistered_hotkey_says_nothing_more() {
    let mut state = ManagerState::new();
    let id = state.register(Hotkey::new(Modifiers::empty(), Some(Key::K)).unwrap()).unwrap();
    assert_eq!(state.process_event(&key_event(Key::K, true)).len(), 1);
    assert_eq!(state.unregister(id), Ok(Hotkey { modifiers: Modifiers::empty(), key: Some(Key::K) }));
    assert!(state.process_event(&key_event(Key::K, false)).is_empty());
    let again = state.register(Hotkey::new(Modifiers::empty(), Some(Key::K)).unwrap()).unwrap();
    assert_eq!(again, HotkeyId(id.0 + 1));
    assert_eq!(state.id_of(Hotkey { modifiers: Modifiers::empty(), key: Some(Key::K) }), Some(again));
    assert_eq!(state.process_event(&key_event(Key::K, true)), vec![
        HotkeyEvent { id: again, state: HotkeyState::Pressed },
    ]);
}

#[test]
fn event_sent_while_waiting_is_received_or_kept() {
    let mut inbox = EventInbox::new();
    assert_eq!(inbox.try_recv(), None);
    inbox.deliver(tap_event(1));
    assert_eq!(inbox.try_recv(), None);
    assert_eq!(inbox.event_buffer.len(), 1);
    inbox.deliver(hotkey_event(2));
    assert_eq!(inbox.try_recv().map(|event| event.id.0), Some(2));
    assert_eq!(inbox.event_buffer.len(), 1);
    assert!(inbox.incoming.is_empty());
}

#[test]
fn mouse_activity_is_received_as_any_event_only() {
    let mut inbox = EventInbox::new();
    let activity = HandyKeysEvent::InputActivity(InputActivity::ScrollWheel);
    inbox.deliver(activity);
    assert_eq!(inbox.try_recv(), None);
    assert_eq!(inbox.try_recv_tap_pattern(), None);
    assert_eq!(inbox.try_recv_tap_alone(), None);
    assert_eq!(inbox.try_recv_event(), Some(activity));
}

#[test]
fn deadlines_beyond_the_end_of_time_are_noticed() {
    let mut recognizer = TapAloneRecognizer::new();
    recognizer.register(tap_alone(Key::D)).unwrap();
    let last = Instant::from_nanos(u128::MAX);
    let release = key_event(Key::D, false);
    assert!(recognizer.can_process_at(&release, last));
    recognizer.process_event_at(&key_event(Key::D, true), last);
    assert!(!recognizer.can_process_at(&release, last));
    assert!(recognizer.can_process_at(&key_event(Key::D, true), last));
    assert!(recognizer.can_process_at(&release, Instant::from_nanos(u128::MAX - 250_000_000)));
    recognizer.process_event_at(&key_event(Key::F, true), last);
    assert!(recognizer.can_process_at(&release, last));
}

#[test]
fn second_press_takes_back_a_tap_whatever_happens_meanwhile() {
    let mut recognizer = TapAloneRecognizer::new();
    let id = recognizer.register(tap_alone(Key::D)).unwrap();
    recognizer.process_event_at(&key_event(Key::D, true), at(0));
    recognizer.process_event_at(&key_event(Key::D, false), at(10));
    recognizer.process_event_at(&key_event(Key::D, true), at(259));
    recognizer.process_event_at(&key_event(Key::F, true), at(261));
    recognizer.process_event_at(&key_event(Key::F, false), at(262));
    recognizer.process_event_at(&key_event(Key::D, true), at(263));
    recognizer.process_event_at(&key_event(Key::D, false), at(264));
    assert_eq!(recognizer.next_deadline_at(), None);
    assert!(recognizer.drain_expired_at(at(9999)).is_empty());

    recognizer.process_event_at(&key_event(Key::D, true), at(10_000));
    recognizer.process_event_at(&key_event(Key::D, false), at(10_010));
    let fired = recognizer.process_event_at(&key_event(Key::D, true), at(10_260));
    assert_eq!(fired, vec![TapAloneEvent { id }]);
}

#[test]
fn press_as_long_as_the_limit_is_no_tap() {
    for (released_at, taps) in [(999, 1), (1000, 0)] {
        let mut recognizer = TapAloneRecognizer::new();
        recognizer.register(tap_alone(Key::D)).unwrap();
        recognizer.process_event_at(&key_event(Key::D, true), at(0));
        recognizer.process_event_at(&key_event(Key::D, false), at(released_at));
        assert_eq!(recognizer.drain_expired_at(at(5000)).len(), taps);
    }
}

#[test]
fn repeats_and_foreign_releases_do_not_break_a_double_tap() {
    let mut recognizer = TapPatternRecognizer::new();
    let id = recognizer.register(double_tap(Key::D)).unwrap();
    recognizer.process_event_at(&key_event(Key::F, true), at(0));
    recognizer.process_event_at(&key_event(Key::D, true), at(10));
    recognizer.process_event_at(&key_event(Key::D, true), at(20));
    recognizer.process_event_at(&key_event(Key::F, true), at(30));
    recognizer.process_event_at(&key_event(Key::D, false), at(40));
    recognizer.process_event_at(&key_event(Key::F, false), at(50));
    assert_eq!(
        recognizer.process_event_at(&key_event(Key::D, true), at(60)),
        vec![TapPatternEvent { id, tap_count: 2, is_key_down: true }]
    );
    recognizer.process_event_at(&key_event(Key::D, false), at(70));
    assert!(recognizer.process_event_at(&key_event(Key::D, true), at(80)).is_empty());
}

#[test]
fn unregistered_pattern_is_not_emitted() {
    let mut recognizer = TapPatternRecognizer::new();
    let id = recognizer.register(double_tap(Key::D)).unwrap();
    recognizer.process_event_at(&key_event(Key::D, true), at(0));
    recognizer.process_event_at(&key_event(Key::D, false), at(10));
    recognizer.unregister(id).unwrap();
    assert!(recognizer.process_event_at(&key_event(Key::D, true), at(20)).is_empty());
}

/// Runs the event loop on what the outside does in each turn, with a receiver that
/// is gone once it has taken `room` events. Gives the events that were sent and the
/// waits.
fn run_loop(
    manager: &mut HotkeyManager,
    script: &[(bool, u64, ListenerReply, u64)],
    room: usize,
) -> (Vec<HandyKeysEvent>, Vec<Duration>) {
    let mut sent = Vec::new();
    let mut waits = Vec::new();
    for (running, before, reply, after) in script {
        if !running {
            break;
        }
        let (events, wait) = manager.before_wait(at(*before));
        for event in events {
            if sent.len() == room {
                return (sent, waits);
            }
            sent.push(event);
        }
        waits.push(wait);
        let Some(events) = manager.after_wait(*reply, at(*after)) else {
            break;
        };
        for event in events {
            if sent.len() == room {
                return (sent, waits);
            }
            sent.push(event);
        }
    }
    (sent, waits)
}

fn loop_manager() -> HotkeyManager {
    let mut manager = HotkeyManager::new();
    manager.register(Hotkey::new(Modifiers::empty(), Some(Key::F)).unwrap()).unwrap();
    manager.register_tap_alone(tap_alone(Key::D)).unwrap();
    manager
}

fn loop_script() -> Vec<(bool, u64, ListenerReply, u64)> {
    vec![
        (true, 0, ListenerReply::Event(key_event(Key::D, true)), 10),
        (true, 11, ListenerReply::Event(key_event(Key::D, false)), 20),
        (true, 21, ListenerReply::Timeout, 121),
        (true, 200, ListenerReply::Event(key_event(Key::F, true)), 210),
        (true, 270, ListenerReply::Event(key_event(Key::F, false)), 280),
    ]
}

fn loop_messages() -> Vec<HandyKeysEvent> {
    vec![
        hotkey_event(0),
        tap_event(1),
        HandyKeysEvent::Hotkey(HotkeyEvent { id: HotkeyId(0), state: HotkeyState::Released }),
    ]
}

#[test]
fn loop_sends_due_taps_before_waiting_and_events_in_order() {
    let (sent, waits) = run_loop(&mut loop_manager(), &loop_script(), 100);
    assert_eq!(sent, loop_messages());
    let millis = Duration::from_millis;
    assert_eq!(waits, vec![millis(100), millis(100), millis(100), millis(70), millis(100)]);
}

#[test]
fn loop_sends_nothing_after_it_stops() {
    for stop in [
        (false, 290, ListenerReply::Timeout, 300),
        (true, 290, ListenerReply::Closed, 300),
    ] {
        let mut script = loop_script();
        script.push(stop);
        script.push((true, 310, ListenerReply::Event(key_event(Key::F, true)), 320));
        let mut manager = loop_manager();
        let (sent, _) = run_loop(&mut manager, &script, 100);
        assert_eq!(sent, loop_messages());
        assert!(manager.state.pressed_hotkeys.is_empty());
    }
}

#[test]
fn loop_stops_at_the_first_send_that_fails() {
    let script = loop_script();
    for room in 0..3 {
        let (sent, waits) = run_loop(&mut loop_manager(), &script, room);
        assert_eq!(sent, loop_messages()[..room]);
        assert_eq!(waits.len(), [4, 4, 5][room]);
    }
}

#[test]
fn registering_and_taking_back_leaves_a_held_trigger_held() {
    let mut recognizer = TapAloneRecognizer::new();
    recognizer.process_event_at(&key_event(Key::D, true), at(0));
    let id = recognizer.register(tap_alone(Key::D)).unwrap();
    assert_eq!(recognizer.count(), 1);
    recognizer.unregister(id).unwrap();
    assert_eq!(recognizer.count(), 0);
    let other = recognizer.register(tap_alone(Key::F)).unwrap();
    recognizer.process_event_at(&key_event(Key::F, true), at(10));
    recognizer.process_event_at(&key_event(Key::F, false), at(20));
    assert!(recognizer.drain_expired_at(at(1000)).is_empty());
    recognizer.process_event_at(&key_event(Key::D, false), at(1000));
    recognizer.process_event_at(&key_event(Key::F, true), at(1010));
    recognizer.process_event_at(&key_event(Key::F, false), at(1020));
    assert_eq!(recognizer.drain_expired_at(at(2000)), vec![TapAloneEvent { id: other }]);
}
