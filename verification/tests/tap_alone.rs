use handy_keys::tap_alone::TapAloneRecognizer;
use handy_keys::time::{Duration, Instant};
use handy_keys::types::{
    InputActivity, Key, KeyEvent, Modifiers, MouseButtonActivity, TapAlone, TapAloneEvent,
    TapAloneId, TriggerKey,
};
use handy_keys::Error;

/// A time to count from.
fn start_of_time() -> Instant {
    Instant::from_nanos(1_000_000_000)
}

fn key_event(key: Key, is_key_down: bool) -> KeyEvent {
    KeyEvent {
        modifiers: Modifiers::empty(),
        key: Some(key),
        is_key_down,
        changed_modifier: None,
        activity: None,
    }
}

fn key_event_with_modifiers(key: Key, is_key_down: bool, modifiers: Modifiers) -> KeyEvent {
    KeyEvent {
        modifiers,
        key: Some(key),
        is_key_down,
        changed_modifier: None,
        activity: None,
    }
}

fn modifier_event(modifier: Modifiers, is_key_down: bool) -> KeyEvent {
    KeyEvent {
        modifiers: if is_key_down {
            modifier
        } else {
            Modifiers::empty()
        },
        key: None,
        is_key_down,
        changed_modifier: Some(modifier),
        activity: None,
    }
}

fn modifier_event_with_modifiers(
    modifier: Modifiers,
    is_key_down: bool,
    modifiers: Modifiers,
) -> KeyEvent {
    KeyEvent {
        modifiers,
        key: None,
        is_key_down,
        changed_modifier: Some(modifier),
        activity: None,
    }
}

fn activity_event(activity: InputActivity) -> KeyEvent {
    KeyEvent {
        modifiers: Modifiers::empty(),
        key: None,
        is_key_down: true,
        changed_modifier: None,
        activity: Some(activity),
    }
}

fn tap_alone(trigger: TriggerKey) -> TapAlone {
    TapAlone::new(
        trigger,
        Duration::from_millis(1000),
        Duration::from_millis(250),
    )
    .unwrap()
}

#[test]
fn tap_alone_emits_after_release_and_suppression_deadline() {
    let start = start_of_time();
    let mut recognizer = TapAloneRecognizer::new();
    let id = recognizer
        .register(tap_alone(TriggerKey::Key(Key::D)))
        .unwrap();

    assert!(recognizer
        .process_event_at(&key_event(Key::D, true), start)
        .is_empty());
    assert!(recognizer
        .process_event_at(&key_event(Key::D, false), start + Duration::from_millis(40))
        .is_empty());
    assert!(recognizer
        .drain_expired_at(start + Duration::from_millis(289))
        .is_empty());
    assert_eq!(
        recognizer.drain_expired_at(start + Duration::from_millis(290)),
        vec![TapAloneEvent { id }]
    );
}

#[test]
fn tap_alone_cancels_when_other_key_is_pressed_while_held() {
    let start = start_of_time();
    let mut recognizer = TapAloneRecognizer::new();
    recognizer
        .register(tap_alone(TriggerKey::Key(Key::D)))
        .unwrap();

    recognizer.process_event_at(&key_event(Key::D, true), start);
    recognizer.process_event_at(&key_event(Key::F, true), start + Duration::from_millis(10));
    recognizer.process_event_at(&key_event(Key::D, false), start + Duration::from_millis(20));

    assert!(recognizer
        .drain_expired_at(start + Duration::from_millis(300))
        .is_empty());
}

#[test]
fn tap_alone_cancels_when_other_modifier_changes_while_held() {
    let start = start_of_time();
    let mut recognizer = TapAloneRecognizer::new();
    recognizer
        .register(tap_alone(TriggerKey::Modifier(Modifiers::ctrl_left())))
        .unwrap();

    recognizer.process_event_at(&modifier_event(Modifiers::ctrl_left(), true), start);
    recognizer.process_event_at(
        &modifier_event(Modifiers::shift_right(), true),
        start + Duration::from_millis(10),
    );
    recognizer.process_event_at(
        &modifier_event(Modifiers::ctrl_left(), false),
        start + Duration::from_millis(20),
    );

    assert!(recognizer
        .drain_expired_at(start + Duration::from_millis(300))
        .is_empty());
}

#[test]
fn tap_alone_cancels_when_key_event_modifier_snapshot_is_chorded() {
    let start = start_of_time();
    let mut recognizer = TapAloneRecognizer::new();
    recognizer
        .register(tap_alone(TriggerKey::Key(Key::D)))
        .unwrap();

    recognizer.process_event_at(
        &key_event_with_modifiers(Key::D, true, Modifiers::ctrl_left()),
        start,
    );
    recognizer.process_event_at(
        &key_event_with_modifiers(Key::D, false, Modifiers::ctrl_left()),
        start + Duration::from_millis(20),
    );

    assert!(recognizer
        .drain_expired_at(start + Duration::from_millis(300))
        .is_empty());
}

#[test]
fn tap_alone_cancels_when_modifier_event_snapshot_has_another_modifier() {
    let start = start_of_time();
    let mut recognizer = TapAloneRecognizer::new();
    recognizer
        .register(tap_alone(TriggerKey::Modifier(Modifiers::ctrl_left())))
        .unwrap();

    recognizer.process_event_at(
        &modifier_event_with_modifiers(
            Modifiers::ctrl_left(),
            true,
            Modifiers::ctrl_left() | Modifiers::shift_right(),
        ),
        start,
    );
    recognizer.process_event_at(
        &modifier_event_with_modifiers(Modifiers::ctrl_left(), false, Modifiers::shift_right()),
        start + Duration::from_millis(20),
    );

    assert!(recognizer
        .drain_expired_at(start + Duration::from_millis(300))
        .is_empty());
}

#[test]
fn tap_alone_cancels_when_key_release_modifier_snapshot_is_chorded() {
    let start = start_of_time();
    let mut recognizer = TapAloneRecognizer::new();
    recognizer
        .register(tap_alone(TriggerKey::Key(Key::D)))
        .unwrap();

    recognizer.process_event_at(&key_event(Key::D, true), start);
    recognizer.process_event_at(
        &key_event_with_modifiers(Key::D, false, Modifiers::ctrl_left()),
        start + Duration::from_millis(20),
    );

    assert!(recognizer
        .drain_expired_at(start + Duration::from_millis(300))
        .is_empty());
}

#[test]
fn tap_alone_cancels_when_mouse_button_or_scroll_happens_while_held() {
    let start = start_of_time();
    for activity in [
        InputActivity::MouseButtonDown(MouseButtonActivity::Left),
        InputActivity::ScrollWheel,
    ] {
        let mut recognizer = TapAloneRecognizer::new();
        recognizer
            .register(tap_alone(TriggerKey::Key(Key::D)))
            .unwrap();
        recognizer.process_event_at(&key_event(Key::D, true), start);
        recognizer
            .process_event_at(&activity_event(activity), start + Duration::from_millis(10));
        recognizer
            .process_event_at(&key_event(Key::D, false), start + Duration::from_millis(20));
        assert!(recognizer
            .drain_expired_at(start + Duration::from_millis(300))
            .is_empty());
    }
}

#[test]
fn tap_alone_uses_strict_max_press_boundary_like_karabiner() {
    let start = start_of_time();
    let trigger = TriggerKey::Key(Key::D);

    let mut emits = TapAloneRecognizer::new();
    let id = emits.register(tap_alone(trigger)).unwrap();
    emits.process_event_at(&key_event(Key::D, true), start);
    emits.process_event_at(
        &key_event(Key::D, false),
        start + Duration::from_millis(999),
    );
    assert_eq!(
        emits.drain_expired_at(start + Duration::from_millis(1249)),
        vec![TapAloneEvent { id }]
    );

    for release_at in [1000, 1001] {
        let mut recognizer = TapAloneRecognizer::new();
        recognizer.register(tap_alone(trigger)).unwrap();
        recognizer.process_event_at(&key_event(Key::D, true), start);
        recognizer.process_event_at(
            &key_event(Key::D, false),
            start + Duration::from_millis(release_at),
        );
        assert!(recognizer
            .drain_expired_at(start + Duration::from_millis(1300))
            .is_empty());
    }
}

#[test]
fn tap_alone_ignores_key_repeat_while_held() {
    let start = start_of_time();
    let mut recognizer = TapAloneRecognizer::new();
    let id = recognizer
        .register(tap_alone(TriggerKey::Key(Key::D)))
        .unwrap();

    recognizer.process_event_at(&key_event(Key::D, true), start);
    recognizer.process_event_at(&key_event(Key::D, true), start + Duration::from_millis(10));
    recognizer.process_event_at(&key_event(Key::D, false), start + Duration::from_millis(20));

    assert_eq!(
        recognizer.drain_expired_at(start + Duration::from_millis(270)),
        vec![TapAloneEvent { id }]
    );
}

#[test]
fn tap_alone_key_repeat_with_modifier_snapshot_interrupts_active_press() {
    let start = start_of_time();
    let mut recognizer = TapAloneRecognizer::new();
    recognizer
        .register(tap_alone(TriggerKey::Key(Key::D)))
        .unwrap();

    recognizer.process_event_at(&key_event(Key::D, true), start);
    recognizer.process_event_at(
        &key_event_with_modifiers(Key::D, true, Modifiers::ctrl_left()),
        start + Duration::from_millis(10),
    );
    recognizer.process_event_at(&key_event(Key::D, false), start + Duration::from_millis(20));

    assert!(recognizer
        .drain_expired_at(start + Duration::from_millis(300))
        .is_empty());
}

#[test]
fn tap_alone_same_trigger_second_tap_suppresses_both_single_taps() {
    let start = start_of_time();
    let mut recognizer = TapAloneRecognizer::new();
    recognizer
        .register(tap_alone(TriggerKey::Key(Key::D)))
        .unwrap();

    recognizer.process_event_at(&key_event(Key::D, true), start);
    recognizer.process_event_at(&key_event(Key::D, false), start + Duration::from_millis(20));
    recognizer.process_event_at(&key_event(Key::D, true), start + Duration::from_millis(100));
    recognizer.process_event_at(
        &key_event(Key::D, false),
        start + Duration::from_millis(120),
    );

    assert!(recognizer
        .drain_expired_at(start + Duration::from_millis(400))
        .is_empty());
}

#[test]
fn tap_alone_third_isolated_tap_after_suppressed_double_tap_emits() {
    let start = start_of_time();
    let mut recognizer = TapAloneRecognizer::new();
    let id = recognizer
        .register(tap_alone(TriggerKey::Key(Key::D)))
        .unwrap();

    recognizer.process_event_at(&key_event(Key::D, true), start);
    recognizer.process_event_at(&key_event(Key::D, false), start + Duration::from_millis(20));
    recognizer.process_event_at(&key_event(Key::D, true), start + Duration::from_millis(100));
    recognizer.process_event_at(
        &key_event(Key::D, false),
        start + Duration::from_millis(120),
    );
    recognizer.process_event_at(&key_event(Key::D, true), start + Duration::from_millis(500));
    recognizer.process_event_at(
        &key_event(Key::D, false),
        start + Duration::from_millis(520),
    );

    assert_eq!(
        recognizer.drain_expired_at(start + Duration::from_millis(770)),
        vec![TapAloneEvent { id }]
    );
}

#[test]
fn tap_alone_other_key_after_release_does_not_cancel_pending_single() {
    let start = start_of_time();
    let mut recognizer = TapAloneRecognizer::new();
    let id = recognizer
        .register(tap_alone(TriggerKey::Key(Key::D)))
        .unwrap();

    recognizer.process_event_at(&key_event(Key::D, true), start);
    recognizer.process_event_at(&key_event(Key::D, false), start + Duration::from_millis(20));
    recognizer.process_event_at(&key_event(Key::F, true), start + Duration::from_millis(30));

    assert_eq!(
        recognizer.drain_expired_at(start + Duration::from_millis(270)),
        vec![TapAloneEvent { id }]
    );
}

#[test]
fn tap_alone_expired_pending_emits_before_late_same_trigger_down() {
    let start = start_of_time();
    let mut recognizer = TapAloneRecognizer::new();
    let id = recognizer
        .register(tap_alone(TriggerKey::Key(Key::D)))
        .unwrap();

    recognizer.process_event_at(&key_event(Key::D, true), start);
    recognizer.process_event_at(&key_event(Key::D, false), start + Duration::from_millis(20));

    assert_eq!(
        recognizer
            .process_event_at(&key_event(Key::D, true), start + Duration::from_millis(300)),
        vec![TapAloneEvent { id }]
    );
}

#[test]
fn tap_alone_multiple_pending_releases_emit_independently() {
    let start = start_of_time();
    let mut recognizer = TapAloneRecognizer::new();
    let d_id = recognizer
        .register(tap_alone(TriggerKey::Key(Key::D)))
        .unwrap();
    let f_id = recognizer
        .register(tap_alone(TriggerKey::Key(Key::F)))
        .unwrap();

    recognizer.process_event_at(&key_event(Key::D, true), start);
    recognizer.process_event_at(&key_event(Key::D, false), start + Duration::from_millis(20));
    recognizer.process_event_at(&key_event(Key::F, true), start + Duration::from_millis(40));
    recognizer.process_event_at(&key_event(Key::F, false), start + Duration::from_millis(60));

    assert_eq!(
        recognizer.drain_expired_at(start + Duration::from_millis(270)),
        vec![TapAloneEvent { id: d_id }]
    );
    assert_eq!(
        recognizer.drain_expired_at(start + Duration::from_millis(310)),
        vec![TapAloneEvent { id: f_id }]
    );
}

#[test]
fn tap_alone_multiple_expired_releases_emit_by_deadline_order() {
    let start = start_of_time();
    let mut recognizer = TapAloneRecognizer::new();
    let d_id = recognizer
        .register(tap_alone(TriggerKey::Key(Key::D)))
        .unwrap();
    let f_id = recognizer
        .register(tap_alone(TriggerKey::Key(Key::F)))
        .unwrap();

    recognizer.process_event_at(&key_event(Key::F, true), start);
    recognizer.process_event_at(&key_event(Key::F, false), start + Duration::from_millis(20));
    recognizer.process_event_at(&key_event(Key::D, true), start + Duration::from_millis(40));
    recognizer.process_event_at(&key_event(Key::D, false), start + Duration::from_millis(60));

    assert_eq!(
        recognizer.drain_expired_at(start + Duration::from_millis(400)),
        vec![TapAloneEvent { id: f_id }, TapAloneEvent { id: d_id }]
    );
}

#[test]
fn tap_alone_target_pressed_while_another_trigger_is_held_is_interrupted() {
    let start = start_of_time();
    let mut recognizer = TapAloneRecognizer::new();
    recognizer
        .register(tap_alone(TriggerKey::Key(Key::D)))
        .unwrap();

    recognizer.process_event_at(&key_event(Key::F, true), start);
    recognizer.process_event_at(&key_event(Key::D, true), start + Duration::from_millis(10));
    recognizer.process_event_at(&key_event(Key::D, false), start + Duration::from_millis(20));

    assert!(recognizer
        .drain_expired_at(start + Duration::from_millis(300))
        .is_empty());
}

#[test]
fn tap_alone_continuous_irrelevant_events_do_not_starve_expired_pending_release() {
    let start = start_of_time();
    let mut recognizer = TapAloneRecognizer::new();
    let id = recognizer
        .register(tap_alone(TriggerKey::Key(Key::D)))
        .unwrap();

    recognizer.process_event_at(&key_event(Key::D, true), start);
    recognizer.process_event_at(&key_event(Key::D, false), start + Duration::from_millis(20));

    assert_eq!(
        recognizer
            .process_event_at(&key_event(Key::F, true), start + Duration::from_millis(300)),
        vec![TapAloneEvent { id }]
    );
}

#[test]
fn tap_alone_rejects_duplicate_ids_and_triggers() {
    let mut recognizer = TapAloneRecognizer::new();
    recognizer
        .register_with_id(TapAloneId::from_u32(7), tap_alone(TriggerKey::Key(Key::D)))
        .unwrap();

    assert!(matches!(
        recognizer
            .register_with_id(TapAloneId::from_u32(7), tap_alone(TriggerKey::Key(Key::F))),
        Err(Error::TapAloneAlreadyRegistered(_))
    ));
    assert!(matches!(
        recognizer.register(tap_alone(TriggerKey::Key(Key::D))),
        Err(Error::TapAloneAlreadyRegistered(_))
    ));
}

#[test]
fn tap_alone_explicit_id_advances_next_generated_id() {
    let mut recognizer = TapAloneRecognizer::new();
    recognizer
        .register_with_id(TapAloneId::from_u32(40), tap_alone(TriggerKey::Key(Key::D)))
        .unwrap();
    let id = recognizer
        .register(tap_alone(TriggerKey::Key(Key::F)))
        .unwrap();
    assert_eq!(id.as_u32(), 41);
}

#[test]
fn tap_alone_unregister_clears_pending_release() {
    let start = start_of_time();
    let mut recognizer = TapAloneRecognizer::new();
    let id = recognizer
        .register(tap_alone(TriggerKey::Key(Key::D)))
        .unwrap();
    recognizer.process_event_at(&key_event(Key::D, true), start);
    recognizer.process_event_at(&key_event(Key::D, false), start + Duration::from_millis(20));

    recognizer.unregister(id).unwrap();
    assert!(recognizer
        .drain_expired_at(start + Duration::from_millis(300))
        .is_empty());
}

#[test]
fn tap_alone_unregister_clears_active_and_suppressed_state() {
    let start = start_of_time();
    let mut recognizer = TapAloneRecognizer::new();
    let id = recognizer
        .register(tap_alone(TriggerKey::Key(Key::D)))
        .unwrap();
    recognizer.process_event_at(&key_event(Key::D, true), start);
    recognizer.unregister(id).unwrap();
    recognizer.process_event_at(&key_event(Key::D, false), start + Duration::from_millis(20));
    assert!(recognizer
        .drain_expired_at(start + Duration::from_millis(300))
        .is_empty());

    let id = recognizer
        .register(tap_alone(TriggerKey::Key(Key::D)))
        .unwrap();
    recognizer.process_event_at(&key_event(Key::D, true), start + Duration::from_millis(400));
    recognizer.process_event_at(
        &key_event(Key::D, false),
        start + Duration::from_millis(420),
    );
    assert_eq!(
        recognizer.drain_expired_at(start + Duration::from_millis(670)),
        vec![TapAloneEvent { id }]
    );
}
