//! What requests that are refused say, and how values read in messages.

use handy_keys::manager::HotkeyManager;
use handy_keys::tap_alone::TapAloneRecognizer;
use handy_keys::tap_pattern::TapPatternRecognizer;
use handy_keys::text::{push_decimal, push_item};
use handy_keys::time::Duration;
use handy_keys::types::{
    Hotkey, HotkeyId, Key, Modifiers, TapAlone, TapAloneId, TapPattern, TapPatternId,
    TapPatternMode, TriggerKey,
};
use handy_keys::Error;

fn tap_alone(trigger: TriggerKey) -> TapAlone {
    TapAlone::new(trigger, Duration::from_millis(1000), Duration::from_millis(250)).unwrap()
}

fn double_tap(trigger: TriggerKey) -> TapPattern {
    TapPattern::double_tap(trigger, Duration::from_millis(250)).unwrap()
}

#[test]
fn numbers_read_in_decimal() {
    for (n, expected) in [(0, "0"), (7, "7"), (10, "10"), (905, "905"), (u32::MAX, "4294967295")] {
        let mut text = String::from("n=");
        push_decimal(&mut text, n);
        assert_eq!(text, format!("n={}", expected));
    }
}

#[test]
fn separators_stand_between_items() {
    let mut list = String::new();
    push_item(&mut list, ", ", "a");
    assert_eq!(list, "a");
    push_item(&mut list, ", ", "b");
    assert_eq!(list, "a, b");
}

#[test]
fn ids_and_triggers_read_as_in_debug_output() {
    assert_eq!(HotkeyId(12).show(), format!("{:?}", HotkeyId(12)));
    assert_eq!(TapAloneId::from_u32(0).show(), format!("{:?}", TapAloneId::from_u32(0)));
    assert_eq!(TapPatternId::from_u32(41).show(), format!("{:?}", TapPatternId::from_u32(41)));
    assert_eq!(TriggerKey::Key(Key::PageUp).show(), format!("{:?}", TriggerKey::Key(Key::PageUp)));
    assert_eq!(
        TriggerKey::Modifier(Modifiers::shift_left()).show(),
        "Modifier(Modifiers(SHIFT_LEFT))"
    );
}

#[test]
fn modifiers_read_as_their_names() {
    assert_eq!(Modifiers::empty().show(), "Modifiers(0x0)");
    assert_eq!(Modifiers::function().show(), "Modifiers(FN)");
    assert_eq!(Modifiers::ctrl().show(), "Modifiers(CTRL_LEFT | CTRL_RIGHT)");
    assert_eq!(
        (Modifiers::shift_right() | Modifiers::cmd_left() | Modifiers::opt_left()).show(),
        "Modifiers(CMD_LEFT | OPT_LEFT | SHIFT_RIGHT)"
    );
}

#[test]
fn key_names_are_those_of_the_variants() {
    for i in 0..handy_keys::types::key::KEY_COUNT {
        let key = Key::at(i);
        assert_eq!(key.name(), format!("{:?}", key));
    }
}

#[test]
fn taken_tap_alone_id_and_trigger_are_named() {
    let mut recognizer = TapAloneRecognizer::new();
    recognizer
        .register_with_id(TapAloneId::from_u32(7), tap_alone(TriggerKey::Key(Key::D)))
        .unwrap();
    assert_eq!(
        recognizer.register_with_id(TapAloneId::from_u32(7), tap_alone(TriggerKey::Key(Key::F))),
        Err(Error::TapAloneAlreadyRegistered("id TapAloneId(7)".to_string()))
    );
    assert_eq!(
        recognizer.register(tap_alone(TriggerKey::Key(Key::D))),
        Err(Error::TapAloneAlreadyRegistered("trigger Key(D)".to_string()))
    );
    assert_eq!(
        recognizer.unregister(TapAloneId::from_u32(8)),
        Err(Error::TapAloneNotFound(TapAloneId::from_u32(8)))
    );
}

#[test]
fn taken_tap_pattern_id_and_trigger_are_named() {
    let mut recognizer = TapPatternRecognizer::new();
    let shift = TriggerKey::Modifier(Modifiers::shift_left());
    recognizer.register_with_id(TapPatternId::from_u32(7), double_tap(shift)).unwrap();
    assert_eq!(
        recognizer
            .register_with_id(TapPatternId::from_u32(7), double_tap(TriggerKey::Key(Key::F))),
        Err(Error::TapPatternAlreadyRegistered("id TapPatternId(7)".to_string()))
    );
    assert_eq!(
        recognizer.register(double_tap(shift)),
        Err(Error::TapPatternAlreadyRegistered(
            "trigger Modifier(Modifiers(SHIFT_LEFT))".to_string()
        ))
    );
    assert_eq!(
        recognizer.unregister(TapPatternId::from_u32(8)),
        Err(Error::TapPatternNotFound(TapPatternId::from_u32(8)))
    );
}

#[test]
fn taken_hotkey_is_named_with_its_id() {
    let mut manager = HotkeyManager::new();
    manager.register(Hotkey::new(Modifiers::empty(), Some(Key::F1)).unwrap()).unwrap();
    let hotkey = Hotkey::new(Modifiers::cmd() | Modifiers::shift_left(), Some(Key::K)).unwrap();
    manager.register(hotkey).unwrap();
    assert_eq!(
        manager.register(hotkey),
        Err(Error::HotkeyAlreadyRegistered("cmd+shift_left+K (id: HotkeyId(1))".to_string()))
    );
    assert_eq!(manager.unregister(HotkeyId(9)), Err(Error::HotkeyNotFound(HotkeyId(9))));
}

#[test]
fn invalid_tap_alone_says_what_is_wrong() {
    let times = (Duration::from_millis(1000), Duration::from_millis(250));
    assert_eq!(
        TapAlone::new(TriggerKey::Key(Key::MouseX2), Duration::zero(), times.1),
        Err(Error::InvalidTapAlone(
            "tap-alone mouse button triggers are not supported".to_string()
        ))
    );
    assert_eq!(
        TapAlone::new(TriggerKey::Key(Key::D), Duration::zero(), Duration::zero()),
        Err(Error::InvalidTapAlone(
            "tap-alone max press duration must be greater than zero".to_string()
        ))
    );
    assert_eq!(
        TapAlone::new(TriggerKey::Key(Key::D), times.0, Duration::zero()),
        Err(Error::InvalidTapAlone(
            "tap-alone double-tap suppression must be greater than zero".to_string()
        ))
    );
}

#[test]
fn invalid_tap_pattern_says_what_is_wrong() {
    let trigger = TriggerKey::Key(Key::D);
    assert_eq!(
        TapPattern::new(trigger, 3, Duration::zero()),
        Err(Error::InvalidTapPattern(
            "only double-tap patterns are supported in this release".to_string()
        ))
    );
    assert_eq!(
        TapPattern::double_tap_hold(trigger, Duration::zero()),
        Err(Error::InvalidTapPattern("tap-pattern timeout must be greater than zero".to_string()))
    );
    let hold = TapPattern::double_tap_hold(trigger, Duration::from_millis(250)).unwrap();
    assert_eq!(hold.mode, TapPatternMode::TapThenHold);
    assert_eq!(double_tap(trigger).mode, TapPatternMode::Lazy);
}

#[test]
fn unfit_triggers_say_what_is_wrong() {
    let side = "tap trigger modifiers must be side-specific, e.g. shift_left".to_string();
    let one = "tap triggers must be exactly one key or one side-specific modifier".to_string();
    let empty = Hotkey { modifiers: Modifiers::empty(), key: None };
    let chord = Hotkey { modifiers: Modifiers::shift_left(), key: Some(Key::D) };
    let both = Hotkey { modifiers: Modifiers::shift(), key: None };
    assert_eq!(TriggerKey::from_hotkey(both), Err(Error::InvalidTriggerKey(side)));
    assert_eq!(TriggerKey::from_hotkey(chord), Err(Error::InvalidTriggerKey(one.clone())));
    assert_eq!(TriggerKey::from_hotkey(empty), Err(Error::InvalidTriggerKey(one)));
}

#[test]
fn hotkeys_are_read_from_text() {
    assert_eq!(
        "Cmd+SHIFT_left+k".parse::<Hotkey>(),
        Ok(Hotkey { modifiers: Modifiers::cmd() | Modifiers::shift_left(), key: Some(Key::K) })
    );
    assert_eq!("f1".parse::<Hotkey>(), Ok(Hotkey { modifiers: Modifiers::empty(), key: Some(Key::F1) }));
    assert_eq!("fn+opt".parse::<Hotkey>(), Ok(Hotkey {
        modifiers: Modifiers::function() | Modifiers::opt(),
        key: None,
    }));
    for refused in ["", "+", "a+b", "cmd+", "cmd k", "nokey"] {
        assert_eq!(
            refused.parse::<Hotkey>(),
            Err(Error::InvalidHotkey(refused.to_string()))
        );
    }
}

#[test]
fn hotkey_text_can_be_read_back() {
    for hotkey in [
        Hotkey { modifiers: Modifiers::cmd() | Modifiers::shift_left(), key: Some(Key::K) },
        Hotkey { modifiers: Modifiers::ctrl_right() | Modifiers::opt() | Modifiers::function(), key: None },
        Hotkey { modifiers: Modifiers::empty(), key: Some(Key::LeftBracket) },
    ] {
        assert_eq!(Hotkey::parse(hotkey.show().as_str()), Ok(hotkey));
    }
}

#[test]
fn empty_hotkey_is_refused() {
    assert_eq!(Hotkey::new(Modifiers::empty(), None), Err(Error::EmptyHotkey));
    assert!(Hotkey::new(Modifiers::function(), None).is_ok());
}
