use handy_keys::time::Duration;
use handy_keys::types::{Hotkey, Key, Modifiers, TapAlone, TapPattern, TriggerKey};
use handy_keys::Error;

#[test]
fn tap_alone_requires_positive_timeouts() {
    let trigger = TriggerKey::Key(Key::D);
    assert!(TapAlone::new(
        trigger,
        Duration::from_millis(1000),
        Duration::from_millis(250),
    )
    .is_ok());
    assert!(TapAlone::new(trigger, Duration::zero(), Duration::from_millis(250)).is_err());
    assert!(TapAlone::new(trigger, Duration::from_millis(1000), Duration::zero()).is_err());
}

#[test]
fn tap_alone_keeps_trigger_and_timeouts() {
    let trigger = TriggerKey::Key(Key::D);
    let tap_alone = TapAlone::new(
        trigger,
        Duration::from_millis(999),
        Duration::from_millis(251),
    )
    .unwrap();

    assert_eq!(tap_alone.trigger, trigger);
    assert_eq!(tap_alone.max_press_duration, Duration::from_millis(999));
    assert_eq!(tap_alone.double_tap_suppression, Duration::from_millis(251));
}

#[test]
fn tap_alone_rejects_mouse_button_triggers() {
    for key in [
        Key::MouseLeft,
        Key::MouseRight,
        Key::MouseMiddle,
        Key::MouseX1,
        Key::MouseX2,
    ] {
        assert!(matches!(
            TapAlone::new(
                TriggerKey::Key(key),
                Duration::from_millis(1000),
                Duration::from_millis(250),
            ),
            Err(Error::InvalidTapAlone(_))
        ));
    }
}

#[test]
fn tap_pattern_requires_double_tap_for_mvp() {
    let trigger = TriggerKey::Key(Key::D);
    assert!(TapPattern::new(trigger, 1, Duration::from_millis(250)).is_err());
    assert!(TapPattern::new(trigger, 3, Duration::from_millis(250)).is_err());
    assert!(TapPattern::new(trigger, 2, Duration::zero()).is_err());
    assert!(TapPattern::double_tap(trigger, Duration::from_millis(250)).is_ok());
    assert!(TapPattern::double_tap_hold(trigger, Duration::from_millis(250)).is_ok());
}

#[test]
fn trigger_accepts_key_only_hotkey() {
    let hotkey: Hotkey = "d".parse().unwrap();
    assert_eq!(
        TriggerKey::from_hotkey(hotkey).unwrap(),
        TriggerKey::Key(Key::D)
    );
}

#[test]
fn trigger_accepts_side_specific_modifier_only_hotkey() {
    let hotkey: Hotkey = "shift_left".parse().unwrap();
    assert_eq!(
        TriggerKey::from_hotkey(hotkey).unwrap(),
        TriggerKey::Modifier(Modifiers::shift_left())
    );
}

#[test]
fn trigger_rejects_compound_modifier_only_hotkey() {
    let hotkey: Hotkey = "shift".parse().unwrap();
    assert!(matches!(
        TriggerKey::from_hotkey(hotkey),
        Err(Error::InvalidTriggerKey(_))
    ));
}

#[test]
fn trigger_rejects_modified_key_hotkey() {
    let hotkey: Hotkey = "shift_left+d".parse().unwrap();
    assert!(matches!(
        TriggerKey::from_hotkey(hotkey),
        Err(Error::InvalidTriggerKey(_))
    ));
}
