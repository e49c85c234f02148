use handy_keys::tap_pattern::TapPatternRecognizer;
use handy_keys::time::{Duration, Instant};
use handy_keys::types::{Key, KeyEvent, Modifiers, TapPattern, TapPatternEvent, TriggerKey};
use handy_keys::Error;

/// A time to count from.
fn start_of_time() -> Instant {
    Instant::from_nanos(1_000_000_000)
}

fn key_event(key: Key, is_key_down: bool) -> KeyEvent {
    KeyEvent {
        modifiers: Modifiers::empty(),
        key: Some(key),
        is_key_down,
        changed_modifier: None,
        activity: None,
    }
}

fn modifier_event(modifier: Modifiers, is_key_down: bool) -> KeyEvent {
    KeyEvent {
        modifiers: if is_key_down {
            modifier
        } else {
            Modifiers::empty()
        },
        key: None,
        is_key_down,
        changed_modifier: Some(modifier),
        activity: None,
    }
}

fn double_tap_pattern(trigger: TriggerKey) -> TapPattern {
    TapPattern::double_tap(trigger, Duration::from_millis(250)).unwrap()
}

#[test]
fn double_tap_within_timeout_emits_once() {
    let start = start_of_time();
    let mut recognizer = TapPatternRecognizer::new();
    let id = recognizer
        .register(double_tap_pattern(TriggerKey::Key(Key::D)))
        .unwrap();

    assert!(recognizer
        .process_event_at(&key_event(Key::D, true), start)
        .is_empty());
    recognizer.process_event_at(&key_event(Key::D, false), start);

    let events = recognizer
        .process_event_at(&key_event(Key::D, true), start + Duration::from_millis(120));
    assert_eq!(events, vec![TapPatternEvent { id, tap_count: 2, is_key_down: true }]);

    recognizer.process_event_at(&key_event(Key::D, false), start);
    assert!(recognizer
        .process_event_at(&key_event(Key::D, true), start + Duration::from_millis(140))
        .is_empty());
}

#[test]
fn slow_second_tap_does_not_emit() {
    let start = start_of_time();
    let mut recognizer = TapPatternRecognizer::new();
    recognizer
        .register(double_tap_pattern(TriggerKey::Key(Key::D)))
        .unwrap();

    recognizer.process_event_at(&key_event(Key::D, true), start);
    recognizer.process_event_at(&key_event(Key::D, false), start);
    assert!(recognizer
        .process_event_at(&key_event(Key::D, true), start + Duration::from_millis(300))
        .is_empty());
}

#[test]
fn different_trigger_interrupts_sequence() {
    let start = start_of_time();
    let mut recognizer = TapPatternRecognizer::new();
    recognizer
        .register(double_tap_pattern(TriggerKey::Key(Key::D)))
        .unwrap();

    recognizer.process_event_at(&key_event(Key::D, true), start);
    recognizer.process_event_at(&key_event(Key::D, false), start);
    recognizer.process_event_at(&key_event(Key::A, true), start + Duration::from_millis(20));
    recognizer.process_event_at(&key_event(Key::A, false), start + Duration::from_millis(30));

    assert!(recognizer
        .process_event_at(&key_event(Key::D, true), start + Duration::from_millis(40))
        .is_empty());
}

#[test]
fn key_repeat_while_held_does_not_count_as_tap() {
    let start = start_of_time();
    let mut recognizer = TapPatternRecognizer::new();
    recognizer
        .register(double_tap_pattern(TriggerKey::Key(Key::D)))
        .unwrap();

    recognizer.process_event_at(&key_event(Key::D, true), start);
    assert!(recognizer
        .process_event_at(&key_event(Key::D, true), start + Duration::from_millis(10))
        .is_empty());
}

#[test]
fn modifier_release_does_not_count_as_tap() {
    let start = start_of_time();
    let mut recognizer = TapPatternRecognizer::new();
    recognizer
        .register(double_tap_pattern(TriggerKey::Modifier(
            Modifiers::shift_left(),
        )))
        .unwrap();

    recognizer.process_event_at(&modifier_event(Modifiers::shift_left(), true), start);
    assert!(recognizer
        .process_event_at(
            &modifier_event(Modifiers::shift_left(), false),
            start + Duration::from_millis(40)
        )
        .is_empty());
}

#[test]
fn different_registered_triggers_do_not_interfere() {
    let start = start_of_time();
    let mut recognizer = TapPatternRecognizer::new();
    let d_id = recognizer
        .register(double_tap_pattern(TriggerKey::Key(Key::D)))
        .unwrap();
    let f_id = recognizer
        .register(double_tap_pattern(TriggerKey::Key(Key::F)))
        .unwrap();

    recognizer.process_event_at(&key_event(Key::D, true), start);
    recognizer.process_event_at(&key_event(Key::D, false), start);
    recognizer.process_event_at(&key_event(Key::F, true), start + Duration::from_millis(20));
    recognizer.process_event_at(&key_event(Key::F, false), start + Duration::from_millis(30));
    let f_events = recognizer
        .process_event_at(&key_event(Key::F, true), start + Duration::from_millis(40));
    assert_eq!(
        f_events,
        vec![TapPatternEvent {
            id: f_id,
            tap_count: 2,
            is_key_down: true,
        }]
    );

    recognizer.process_event_at(&key_event(Key::F, false), start + Duration::from_millis(50));
    recognizer.process_event_at(&key_event(Key::D, true), start + Duration::from_millis(60));
    recognizer.process_event_at(&key_event(Key::D, false), start + Duration::from_millis(70));
    let d_events = recognizer
        .process_event_at(&key_event(Key::D, true), start + Duration::from_millis(80));
    assert_eq!(
        d_events,
        vec![TapPatternEvent {
            id: d_id,
            tap_count: 2,
            is_key_down: true,
        }]
    );
}

#[test]
fn duplicate_trigger_registration_is_rejected() {
    let mut recognizer = TapPatternRecognizer::new();
    let pattern = double_tap_pattern(TriggerKey::Key(Key::D));
    recognizer.register(pattern).unwrap();
    assert!(matches!(
        recognizer.register(pattern),
        Err(Error::TapPatternAlreadyRegistered(_))
    ));
}
