use std::sync::mpsc;

use handy_keys::manager::state::{
    queue_processed_events, recv_timeout_for_state, RECV_TIMEOUT_MILLIS,
};
use handy_keys::manager::{HotkeyManager, ManagerState, EVENT_BUFFER_LIMIT};
use handy_keys::time::{Duration, Instant};
use handy_keys::types::{
    HandyKeysEvent, Hotkey, HotkeyEvent, HotkeyId, HotkeyState, InputActivity, Key, KeyEvent,
    Modifiers, MouseButtonActivity, TapAlone, TapAloneEvent, TapAloneId, TapPattern,
    TapPatternEvent, TriggerKey,
};

/// A time to count from.
fn start_of_time() -> Instant {
    Instant::from_nanos(1_000_000_000)
}

fn make_key_event(modifiers: Modifiers, key: Option<Key>, is_key_down: bool) -> KeyEvent {
    KeyEvent {
        modifiers,
        key,
        is_key_down,
        changed_modifier: None,
        activity: None,
    }
}

fn make_modifier_event(
    modifiers: Modifiers,
    is_key_down: bool,
    changed: Modifiers,
) -> KeyEvent {
    KeyEvent {
        modifiers,
        key: None,
        is_key_down,
        changed_modifier: Some(changed),
        activity: None,
    }
}

fn make_activity_event(modifiers: Modifiers, activity: InputActivity) -> KeyEvent {
    KeyEvent {
        modifiers,
        key: None,
        is_key_down: true,
        changed_modifier: None,
        activity: Some(activity),
    }
}

#[test]
fn register_and_lookup_hotkey() {
    let mut state = ManagerState::new();
    let hotkey = Hotkey::new(Modifiers::cmd(), Some(Key::K)).unwrap();

    let id = HotkeyId(state.next_id);
    state.next_id += 1;
    state.hotkeys.insert(id.0, hotkey);

    assert_eq!(state.hotkeys.get(&id.0), Some(&hotkey));
    assert_eq!(state.hotkeys.len(), 1);
}

#[test]
fn hotkey_press_generates_event() {
    let mut state = ManagerState::new();
    let hotkey = Hotkey::new(Modifiers::cmd(), Some(Key::K)).unwrap();
    let id = HotkeyId(0);
    state.hotkeys.insert(id.0, hotkey);

    // Simulate Cmd+K key down (event uses side-specific modifier)
    let event = make_key_event(Modifiers::cmd_left(), Some(Key::K), true);
    let results = state.process_event(&event);

    assert_eq!(results.len(), 1);
    assert_eq!(results[0].id, id);
    assert_eq!(results[0].state, HotkeyState::Pressed);
    assert!(state.pressed_hotkeys.contains(&id.0));
}

#[test]
fn hotkey_release_generates_event() {
    let mut state = ManagerState::new();
    let hotkey = Hotkey::new(Modifiers::cmd(), Some(Key::K)).unwrap();
    let id = HotkeyId(0);
    state.hotkeys.insert(id.0, hotkey);

    // Press first
    let event = make_key_event(Modifiers::cmd_left(), Some(Key::K), true);
    state.process_event(&event);

    // Then release the key
    let event = make_key_event(Modifiers::cmd_left(), Some(Key::K), false);
    let results = state.process_event(&event);

    assert_eq!(results.len(), 1);
    assert_eq!(results[0].id, id);
    assert_eq!(results[0].state, HotkeyState::Released);
    assert!(!state.pressed_hotkeys.contains(&id.0));
}

#[test]
fn no_duplicate_press_events() {
    let mut state = ManagerState::new();
    let hotkey = Hotkey::new(Modifiers::cmd(), Some(Key::K)).unwrap();
    let id = HotkeyId(0);
    state.hotkeys.insert(id.0, hotkey);

    // Press once
    let event = make_key_event(Modifiers::cmd_left(), Some(Key::K), true);
    let results = state.process_event(&event);
    assert_eq!(results.len(), 1);

    // Press again (key repeat) - should not generate another event
    let results = state.process_event(&event);
    assert_eq!(results.len(), 0);
}

#[test]
fn modifier_release_triggers_hotkey_release() {
    let mut state = ManagerState::new();
    let hotkey = Hotkey::new(Modifiers::cmd(), Some(Key::K)).unwrap();
    let id = HotkeyId(0);
    state.hotkeys.insert(id.0, hotkey);

    // Press Cmd+K
    let event = make_key_event(Modifiers::cmd_left(), Some(Key::K), true);
    state.process_event(&event);
    assert!(state.pressed_hotkeys.contains(&id.0));

    // Release Cmd (while K is still held) - modifier event
    let event = make_modifier_event(Modifiers::empty(), false, Modifiers::cmd_left());
    let results = state.process_event(&event);

    assert_eq!(results.len(), 1);
    assert_eq!(results[0].state, HotkeyState::Released);
    assert!(!state.pressed_hotkeys.contains(&id.0));
}

#[test]
fn wrong_modifiers_dont_trigger() {
    let mut state = ManagerState::new();
    let hotkey = Hotkey::new(Modifiers::cmd(), Some(Key::K)).unwrap();
    state.hotkeys.insert(HotkeyId(0).0, hotkey);

    // Press Shift+K instead of Cmd+K
    let event = make_key_event(Modifiers::shift_left(), Some(Key::K), true);
    let results = state.process_event(&event);

    assert_eq!(results.len(), 0);
}

#[test]
fn modifier_only_hotkey() {
    let mut state = ManagerState::new();
    let hotkey = Hotkey::new(Modifiers::cmd() | Modifiers::shift(), None).unwrap();
    let id = HotkeyId(0);
    state.hotkeys.insert(id.0, hotkey);

    // Press Cmd+Shift (no key) — events use side-specific modifiers
    let event = make_modifier_event(
        Modifiers::cmd_left() | Modifiers::shift_left(),
        true,
        Modifiers::shift_left(),
    );
    let results = state.process_event(&event);

    assert_eq!(results.len(), 1);
    assert_eq!(results[0].state, HotkeyState::Pressed);
}

#[test]
fn multiple_hotkeys_same_key() {
    let mut state = ManagerState::new();

    // Cmd+K and Ctrl+K
    let hotkey1 = Hotkey::new(Modifiers::cmd(), Some(Key::K)).unwrap();
    let hotkey2 = Hotkey::new(Modifiers::ctrl(), Some(Key::K)).unwrap();
    let id1 = HotkeyId(0);
    let id2 = HotkeyId(1);
    state.hotkeys.insert(id1.0, hotkey1);
    state.hotkeys.insert(id2.0, hotkey2);

    // Press Cmd+K
    let event = make_key_event(Modifiers::cmd_left(), Some(Key::K), true);
    let results = state.process_event(&event);

    assert_eq!(results.len(), 1);
    assert_eq!(results[0].id, id1);

    // Press Ctrl+K (release Cmd first)
    state.pressed_hotkeys.clear();
    let event = make_key_event(Modifiers::ctrl_left(), Some(Key::K), true);
    let results = state.process_event(&event);

    assert_eq!(results.len(), 1);
    assert_eq!(results[0].id, id2);
}

#[test]
fn key_only_hotkey() {
    let mut state = ManagerState::new();
    let hotkey = Hotkey::new(Modifiers::empty(), Some(Key::F1)).unwrap();
    let id = HotkeyId(0);
    state.hotkeys.insert(id.0, hotkey);

    // Press F1 with no modifiers
    let event = make_key_event(Modifiers::empty(), Some(Key::F1), true);
    let results = state.process_event(&event);

    assert_eq!(results.len(), 1);
    assert_eq!(results[0].state, HotkeyState::Pressed);

    // F1 with modifiers should NOT trigger
    state.pressed_hotkeys.clear();
    let event = make_key_event(Modifiers::cmd_left(), Some(Key::F1), true);
    let results = state.process_event(&event);

    assert_eq!(results.len(), 0);
}

#[test]
fn modifier_only_hotkey_not_released_by_unrelated_modifier() {
    let mut state = ManagerState::new();
    let hotkey = Hotkey::new(Modifiers::cmd(), None).unwrap();
    let id = HotkeyId(0);
    state.hotkeys.insert(id.0, hotkey);

    // Cmd down — hotkey pressed
    let event = make_modifier_event(Modifiers::cmd_left(), true, Modifiers::cmd_left());
    let results = state.process_event(&event);
    assert_eq!(results.len(), 1);
    assert_eq!(results[0].state, HotkeyState::Pressed);

    // Shift down while Cmd held — no state change
    let event = make_modifier_event(
        Modifiers::cmd_left() | Modifiers::shift_left(),
        true,
        Modifiers::shift_left(),
    );
    assert_eq!(state.process_event(&event).len(), 0);

    // Shift up — Cmd is still held and still matches, so the hotkey
    // must NOT be released
    let event = make_modifier_event(Modifiers::cmd_left(), false, Modifiers::shift_left());
    assert_eq!(state.process_event(&event).len(), 0);
    assert!(state.pressed_hotkeys.contains(&id.0));

    // Cmd up — now it releases
    let event = make_modifier_event(Modifiers::empty(), false, Modifiers::cmd_left());
    let results = state.process_event(&event);
    assert_eq!(results.len(), 1);
    assert_eq!(results[0].state, HotkeyState::Released);
    assert!(!state.pressed_hotkeys.contains(&id.0));
}

#[test]
fn modifier_only_hotkey_releases_on_own_modifier_release() {
    let mut state = ManagerState::new();
    let hotkey = Hotkey::new(Modifiers::cmd(), None).unwrap();
    let id = HotkeyId(0);
    state.hotkeys.insert(id.0, hotkey);

    let event = make_modifier_event(Modifiers::cmd_left(), true, Modifiers::cmd_left());
    state.process_event(&event);
    assert!(state.pressed_hotkeys.contains(&id.0));

    let event = make_modifier_event(Modifiers::empty(), false, Modifiers::cmd_left());
    let results = state.process_event(&event);
    assert_eq!(results.len(), 1);
    assert_eq!(results[0].state, HotkeyState::Released);
}

#[test]
fn compound_modifier_only_hotkey_releases_on_partial_release() {
    let mut state = ManagerState::new();
    let hotkey = Hotkey::new(Modifiers::cmd() | Modifiers::shift(), None).unwrap();
    let id = HotkeyId(0);
    state.hotkeys.insert(id.0, hotkey);

    // Cmd down, then Shift down — pressed once both are held
    let event = make_modifier_event(Modifiers::cmd_left(), true, Modifiers::cmd_left());
    assert_eq!(state.process_event(&event).len(), 0);
    let event = make_modifier_event(
        Modifiers::cmd_left() | Modifiers::shift_left(),
        true,
        Modifiers::shift_left(),
    );
    let results = state.process_event(&event);
    assert_eq!(results.len(), 1);
    assert_eq!(results[0].state, HotkeyState::Pressed);

    // Releasing either modifier breaks the match — released
    let event = make_modifier_event(Modifiers::shift_left(), false, Modifiers::cmd_left());
    let results = state.process_event(&event);
    assert_eq!(results.len(), 1);
    assert_eq!(results[0].state, HotkeyState::Released);
}

#[test]
fn keyed_hotkey_not_released_by_unrelated_key_release() {
    let mut state = ManagerState::new();
    let hotkey = Hotkey::new(Modifiers::cmd(), Some(Key::K)).unwrap();
    let id = HotkeyId(0);
    state.hotkeys.insert(id.0, hotkey);

    let event = make_key_event(Modifiers::cmd_left(), Some(Key::K), true);
    state.process_event(&event);
    assert!(state.pressed_hotkeys.contains(&id.0));

    // Release of a different key while Cmd+K is held — no release
    let event = make_key_event(Modifiers::cmd_left(), Some(Key::J), false);
    assert_eq!(state.process_event(&event).len(), 0);
    assert!(state.pressed_hotkeys.contains(&id.0));
}

#[test]
fn side_specific_hotkey_matches_correct_side() {
    let mut state = ManagerState::new();
    // Register CtrlRight+Space
    let hotkey = Hotkey::new(Modifiers::ctrl_right(), Some(Key::Space)).unwrap();
    let id = HotkeyId(0);
    state.hotkeys.insert(id.0, hotkey);

    // Left ctrl should not trigger
    let event = make_key_event(Modifiers::ctrl_left(), Some(Key::Space), true);
    assert_eq!(state.process_event(&event).len(), 0);

    // Right ctrl should trigger
    let event = make_key_event(Modifiers::ctrl_right(), Some(Key::Space), true);
    let results = state.process_event(&event);
    assert_eq!(results.len(), 1);
    assert_eq!(results[0].state, HotkeyState::Pressed);
}

#[test]
fn compound_hotkey_matches_either_side() {
    let mut state = ManagerState::new();
    let hotkey = Hotkey::new(Modifiers::cmd(), Some(Key::K)).unwrap();
    let id = HotkeyId(0);
    state.hotkeys.insert(id.0, hotkey);

    // Left Cmd triggers
    let event = make_key_event(Modifiers::cmd_left(), Some(Key::K), true);
    let results = state.process_event(&event);
    assert_eq!(results.len(), 1);

    // Release
    state.pressed_hotkeys.clear();

    // Right Cmd also triggers
    let event = make_key_event(Modifiers::cmd_right(), Some(Key::K), true);
    let results = state.process_event(&event);
    assert_eq!(results.len(), 1);
}

#[test]
fn tap_pattern_registration_lookup_and_unregister() {
    let mut state = ManagerState::new();
    let pattern = TapPattern::double_tap(
        TriggerKey::Modifier(Modifiers::shift_left()),
        Duration::from_millis(250),
    )
    .unwrap();

    let id = state.tap_patterns.register(pattern).unwrap();
    assert_eq!(state.tap_patterns.get(id), Some(pattern));
    assert_eq!(state.tap_patterns.count(), 1);

    state.tap_patterns.unregister(id).unwrap();
    assert_eq!(state.tap_patterns.count(), 0);
}

#[test]
fn process_all_events_includes_tap_pattern_events() {
    let mut state = ManagerState::new();
    let pattern =
        TapPattern::double_tap(TriggerKey::Key(Key::D), Duration::from_millis(250))
            .unwrap();
    let id = state.tap_patterns.register(pattern).unwrap();
    let start = start_of_time();

    let first_down = make_key_event(Modifiers::empty(), Some(Key::D), true);
    let first_up = make_key_event(Modifiers::empty(), Some(Key::D), false);
    let second_down = make_key_event(Modifiers::empty(), Some(Key::D), true);

    assert!(state
        .process_all_events(&first_down, start)
        .tap_events
        .is_empty());
    state.process_all_events(&first_up, start + Duration::from_millis(10));
    let events = state.process_all_events(&second_down, start + Duration::from_millis(50));

    assert_eq!(
        events.tap_events,
        vec![TapPatternEvent {
            id,
            tap_count: 2,
            is_key_down: true,
        }]
    );
}

#[test]
fn tap_alone_registration_lookup_and_unregister() {
    let mut state = ManagerState::new();
    let pattern = TapAlone::new(
        TriggerKey::Key(Key::D),
        Duration::from_millis(1000),
        Duration::from_millis(250),
    )
    .unwrap();

    let id = state.tap_alones.register(pattern).unwrap();
    assert_eq!(state.tap_alones.get(id), Some(pattern));
    assert_eq!(state.tap_alones.count(), 1);

    state.tap_alones.unregister(id).unwrap();
    assert_eq!(state.tap_alones.count(), 0);
}

#[test]
fn process_all_events_includes_tap_alone_events_after_deadline() {
    let mut state = ManagerState::new();
    let id = state
        .tap_alones
        .register(
            TapAlone::new(
                TriggerKey::Key(Key::D),
                Duration::from_millis(1000),
                Duration::from_millis(250),
            )
            .unwrap(),
        )
        .unwrap();
    let start = start_of_time();

    state.process_all_events(
        &make_key_event(Modifiers::empty(), Some(Key::D), true),
        start,
    );
    state.process_all_events(
        &make_key_event(Modifiers::empty(), Some(Key::D), false),
        start + Duration::from_millis(40),
    );

    assert_eq!(
        state
            .tap_alones
            .drain_expired_at(start + Duration::from_millis(290)),
        vec![TapAloneEvent { id }]
    );
}

#[test]
fn process_all_events_drains_expired_tap_alone_before_new_event() {
    let mut state = ManagerState::new();
    let id = state
        .tap_alones
        .register(
            TapAlone::new(
                TriggerKey::Key(Key::D),
                Duration::from_millis(1000),
                Duration::from_millis(250),
            )
            .unwrap(),
        )
        .unwrap();
    let start = start_of_time();

    state.process_all_events(
        &make_key_event(Modifiers::empty(), Some(Key::D), true),
        start,
    );
    state.process_all_events(
        &make_key_event(Modifiers::empty(), Some(Key::D), false),
        start + Duration::from_millis(20),
    );
    let events = state.process_all_events(
        &make_key_event(Modifiers::empty(), Some(Key::D), true),
        start + Duration::from_millis(300),
    );

    assert_eq!(events.tap_alone_events, vec![TapAloneEvent { id }]);
}

#[test]
fn ordered_queue_sends_expired_tap_alone_before_current_hotkey() {
    let mut state = ManagerState::new();
    let hotkey_id = HotkeyId(7);
    state
        .hotkeys
        .insert(hotkey_id.0, Hotkey::new(Modifiers::empty(), Some(Key::D)).unwrap());
    let tap_alone_id = state
        .tap_alones
        .register(
            TapAlone::new(
                TriggerKey::Key(Key::D),
                Duration::from_millis(1000),
                Duration::from_millis(250),
            )
            .unwrap(),
        )
        .unwrap();
    let start = start_of_time();

    state.process_all_events(
        &make_key_event(Modifiers::empty(), Some(Key::D), true),
        start,
    );
    state.process_all_events(
        &make_key_event(Modifiers::empty(), Some(Key::D), false),
        start + Duration::from_millis(20),
    );
    let events = state.process_all_events(
        &make_key_event(Modifiers::empty(), Some(Key::D), true),
        start + Duration::from_millis(300),
    );

    let (event_tx, event_rx) = mpsc::channel();
    for event in queue_processed_events(events) {
        event_tx.send(event).unwrap();
    }

    assert_eq!(
        event_rx.try_recv().unwrap(),
        HandyKeysEvent::TapAlone(TapAloneEvent { id: tap_alone_id })
    );
    assert_eq!(
        event_rx.try_recv().unwrap(),
        HandyKeysEvent::Hotkey(HotkeyEvent {
            id: hotkey_id,
            state: HotkeyState::Pressed,
        })
    );
}

#[test]
fn internal_activity_does_not_trigger_modifier_only_hotkeys() {
    let mut state = ManagerState::new();
    let hotkey = Hotkey::new(Modifiers::ctrl_left(), None).unwrap();
    let id = HotkeyId(0);
    state.hotkeys.insert(id.0, hotkey);

    let events = state.process_all_events(
        &make_activity_event(
            Modifiers::ctrl_left(),
            InputActivity::MouseButtonDown(MouseButtonActivity::Left),
        ),
        start_of_time(),
    );

    assert!(events.hotkey_events.is_empty());
}

#[test]
fn tap_alone_deadline_timeout_uses_min_deadline_and_recv_timeout() {
    let start = start_of_time();
    let mut state = ManagerState::new();
    state
        .tap_alones
        .register(
            TapAlone::new(
                TriggerKey::Key(Key::D),
                Duration::from_millis(1000),
                Duration::from_millis(50),
            )
            .unwrap(),
        )
        .unwrap();
    state.process_all_events(
        &make_key_event(Modifiers::empty(), Some(Key::D), true),
        start,
    );
    state.process_all_events(
        &make_key_event(Modifiers::empty(), Some(Key::D), false),
        start,
    );
    assert_eq!(
        recv_timeout_for_state(&state, start),
        Duration::from_millis(50)
    );

    let mut later = ManagerState::new();
    later
        .tap_alones
        .register(
            TapAlone::new(
                TriggerKey::Key(Key::D),
                Duration::from_millis(1000),
                Duration::from_millis(250),
            )
            .unwrap(),
        )
        .unwrap();
    later.process_all_events(
        &make_key_event(Modifiers::empty(), Some(Key::D), true),
        start,
    );
    later.process_all_events(
        &make_key_event(Modifiers::empty(), Some(Key::D), false),
        start,
    );
    assert_eq!(recv_timeout_for_state(&later, start), Duration::from_millis(RECV_TIMEOUT_MILLIS));
}

#[test]
fn typed_receive_buffers_unmatched_events_for_generic_receive() {
    let mut manager = HotkeyManager::new();
    let hotkey_event = HotkeyEvent {
        id: HotkeyId(3),
        state: HotkeyState::Pressed,
    };
    let tap_alone_event = TapAloneEvent {
        id: TapAloneId::from_u32(9),
    };

    manager.deliver(HandyKeysEvent::Hotkey(hotkey_event));
    manager.deliver(HandyKeysEvent::TapAlone(tap_alone_event));

    assert_eq!(manager.try_recv_tap_alone(), Some(tap_alone_event));
    assert_eq!(
        manager.try_recv_event(),
        Some(HandyKeysEvent::Hotkey(hotkey_event))
    );
    assert_eq!(manager.try_recv_event(), None);
}

#[test]
fn typed_receive_unmatched_event_buffer_is_bounded() {
    let mut manager = HotkeyManager::new();

    for offset in 0..(EVENT_BUFFER_LIMIT + 2) {
        manager.deliver(HandyKeysEvent::TapAlone(TapAloneEvent {
            id: TapAloneId::from_u32(offset as u32),
        }));
    }

    assert_eq!(manager.try_recv(), None);
    assert_eq!(manager.inbox.event_buffer.len(), EVENT_BUFFER_LIMIT);
}
