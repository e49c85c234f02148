//! What the types promise, told from their fields.

use vstd::prelude::*;

use crate::error::Error;
use crate::text;
use crate::time::{Duration, Instant};

use super::hotkey::{Hotkey, HotkeyId, KeyEvent};
use super::key::{Key, KEY_COUNT};
use super::modifiers::Modifiers;
use super::spelling::{self, Reading};
use super::tap_alone::{TapAlone, TapAloneId};
use super::tap_pattern::{TapPattern, TapPatternId};
use super::trigger_key::{self, TriggerKey};

verus! {

/// A tap-alone definition is accepted exactly if its trigger is no mouse button and
/// both of its times are longer than nothing, and a refusal names the first of these
/// that fails.
pub proof fn tap_alone_definitions_are_checked(wanted: TapAlone)
    ensures
        ({
            let mouse = wanted.trigger == TriggerKey::Key(Key::MouseLeft) || wanted.trigger
                == TriggerKey::Key(Key::MouseRight) || wanted.trigger == TriggerKey::Key(
                Key::MouseMiddle,
            ) || wanted.trigger == TriggerKey::Key(Key::MouseX1) || wanted.trigger
                == TriggerKey::Key(Key::MouseX2);
            &&& wanted.valid() <==> !mouse && wanted.max_press_duration.nanos != 0
                && wanted.double_tap_suppression.nanos != 0
            &&& mouse ==> wanted.flaw() == "tap-alone mouse button triggers are not supported"@
            &&& !mouse && wanted.max_press_duration.nanos == 0 ==> wanted.flaw()
                == "tap-alone max press duration must be greater than zero"@
            &&& !mouse && wanted.max_press_duration.nanos != 0
                && wanted.double_tap_suppression.nanos == 0 ==> wanted.flaw()
                == "tap-alone double-tap suppression must be greater than zero"@
        }),
{
}

/// A request for a tap pattern is granted, as it stands, exactly if it is for two taps
/// with a timeout longer than nothing, and a refusal names the first that fails.
pub proof fn tap_pattern_requests_are_answered(wanted: TapPattern, r: Result<TapPattern, Error>)
    requires
        wanted.answers(r),
    ensures
        r is Ok <==> wanted.tap_count == 2 && wanted.timeout.nanos != 0,
        r matches Ok(made) ==> made.trigger == wanted.trigger && made.tap_count == wanted.tap_count
            && made.timeout == wanted.timeout && made.mode == wanted.mode,
        r matches Err(e) ==> e is InvalidTapPattern && (e->InvalidTapPattern_0)@ == (
        if wanted.tap_count != 2 {
            "only double-tap patterns are supported in this release"@
        } else {
            "tap-pattern timeout must be greater than zero"@
        }),
        wanted.valid() <==> wanted.tap_count == 2 && wanted.timeout.nanos != 0,
{
}

/// The trigger of an event is its key, and the modifier that changed only if it has
/// no key.
pub proof fn trigger_is_the_key_or_else_the_modifier(event: KeyEvent)
    ensures
        event.key is Some ==> TriggerKey::of_event(event) == Some(TriggerKey::Key(event.key->0)),
        event.key is None && event.changed_modifier is Some ==> TriggerKey::of_event(event) == Some(
            TriggerKey::Modifier(event.changed_modifier->0),
        ),
        event.key is None && event.changed_modifier is None ==> TriggerKey::of_event(event) is None,
{
}

/// The two reasons for which a hotkey cannot be a trigger.
pub proof fn unfit_triggers_are_explained()
    ensures
        trigger_key::not_side_specific()
            == "tap trigger modifiers must be side-specific, e.g. shift_left"@,
        trigger_key::not_one_input()
            == "tap triggers must be exactly one key or one side-specific modifier"@,
{
}

/// Each modifier key has a bit of its own, and a modifier on either side has both.
pub proof fn modifiers_have_their_bits()
    ensures
        Modifiers::empty().bits == 0,
        Modifiers::cmd_left().bits == 0x1,
        Modifiers::cmd_right().bits == 0x2,
        Modifiers::cmd().bits == 0x3,
        Modifiers::ctrl_left().bits == 0x4,
        Modifiers::ctrl_right().bits == 0x8,
        Modifiers::ctrl().bits == 0xc,
        Modifiers::opt_left().bits == 0x10,
        Modifiers::opt_right().bits == 0x20,
        Modifiers::opt().bits == 0x30,
        Modifiers::shift_left().bits == 0x40,
        Modifiers::shift_right().bits == 0x80,
        Modifiers::shift().bits == 0xc0,
        Modifiers::function().bits == 0x100,
{
}

/// Sets of modifier keys are sets of bits.
pub proof fn modifiers_are_sets_of_bits(a: Modifiers, b: Modifiers)
    ensures
        a.bits() == a.bits,
        a.is_empty() <==> a.bits == 0,
        a.intersects(b) <==> a.bits & b.bits != 0,
        vstd::std_specs::ops::BitOrSpec::bitor_spec(a, b).bits == a.bits | b.bits,
        vstd::std_specs::ops::BitAndSpec::bitand_spec(a, b).bits == a.bits & b.bits,
        vstd::std_specs::ops::NotSpec::not_spec(a).bits == !a.bits & 0x1ff,
{
}

/// Each modifier key has a name, in the order of the bits, and a set reads as the names
/// of its keys.
pub proof fn modifiers_show_their_names(modifiers: Modifiers, n: nat)
    ensures
        Modifiers::flag_name(0) == "CMD_LEFT"@,
        Modifiers::flag_name(1) == "CMD_RIGHT"@,
        Modifiers::flag_name(2) == "CTRL_LEFT"@,
        Modifiers::flag_name(3) == "CTRL_RIGHT"@,
        Modifiers::flag_name(4) == "OPT_LEFT"@,
        Modifiers::flag_name(5) == "OPT_RIGHT"@,
        Modifiers::flag_name(6) == "SHIFT_LEFT"@,
        Modifiers::flag_name(7) == "SHIFT_RIGHT"@,
        Modifiers::flag_name(8) == "FN"@,
        modifiers.names_below(0).len() == 0,
        modifiers.names_below(n + 1) == (if !holds(modifiers, n as u32) {
            modifiers.names_below(n)
        } else if modifiers.names_below(n).len() == 0 {
            Modifiers::flag_name(n as int)
        } else {
            modifiers.names_below(n) + " | "@ + Modifiers::flag_name(n as int)
        }),
        modifiers.names_below(9).len() == 0 ==> modifiers.shown() == "Modifiers(0x0)"@,
        modifiers.names_below(9).len() > 0 ==> modifiers.shown() == "Modifiers("@
            + modifiers.names_below(9) + ")"@,
{
}

/// A hotkey's key stands last, behind a plus sign if there are modifiers.
pub proof fn hotkeys_show_their_key_last(modifiers: Modifiers, key: Key)
    ensures
        ({
            let before = (Hotkey { modifiers, key: None }).shown();
            (Hotkey { modifiers, key: Some(key) }).shown() == (if before.len() == 0 {
                key.spelled()
            } else {
                before + "+"@ + key.spelled()
            })
        }),
{
}

/// Ids and times hold the numbers that they were made of.
pub proof fn numbers_are_kept(n: u32, nanos: u128)
    ensures
        TapAloneId::from_u32(n).as_u32() == n,
        TapAloneId::from_u32(n).0 == n,
        TapPatternId::from_u32(n).as_u32() == n,
        TapPatternId::from_u32(n).0 == n,
        Duration::zero().nanos == 0,
        Instant::from_nanos(nanos).nanos == nanos,
{
}

/// Whether a set holds the modifier key of a bit.
pub open spec fn holds(modifiers: Modifiers, bit: u32) -> bool {
    modifiers.bits & (1u32 << bit) != 0
}

/// A set counts as one key exactly if there is one bit in it and no other.
pub proof fn one_key_is_one_bit(modifiers: Modifiers)
    ensures
        modifiers.keys() == 1 <==> exists|i: u32|
            {
                &&& i < 32
                &&& #[trigger] holds(modifiers, i)
                &&& forall|j: u32| j < 32 && #[trigger] holds(modifiers, j) ==> j == i
            },
        modifiers.keys() <= 32,
{
    lemma_bits_below(modifiers, 32);
}

/// Whether one of the lowest bits is set, and no other of them.
spec fn single_below(modifiers: Modifiers, n: nat) -> bool {
    exists|i: u32|
        {
            &&& i < n
            &&& #[trigger] holds(modifiers, i)
            &&& forall|j: u32| j < n && #[trigger] holds(modifiers, j) ==> j == i
        }
}

proof fn lemma_bits_below(modifiers: Modifiers, n: nat)
    requires
        n <= 32,
    ensures
        modifiers.keys_below(n) <= n,
        modifiers.keys_below(n) == 0 <==> forall|j: u32| j < n ==> !#[trigger] holds(modifiers, j),
        modifiers.keys_below(n) == 1 <==> single_below(modifiers, n),
    decreases n,
{
    if n > 0 {
        let last = (n - 1) as u32;
        lemma_bits_below(modifiers, (n - 1) as nat);
        let fewer = modifiers.keys_below((n - 1) as nat);
        if holds(modifiers, last) {
            if fewer == 0 {
                assert(holds(modifiers, last));
                assert(single_below(modifiers, n));
            } else if single_below(modifiers, n) {
                let i = choose|i: u32|
                    {
                        &&& i < n
                        &&& #[trigger] holds(modifiers, i)
                        &&& forall|j: u32| j < n && #[trigger] holds(modifiers, j) ==> j == i
                    };
                assert(i == last);
                assert forall|j: u32| j < n - 1 implies !#[trigger] holds(modifiers, j) by {}
            }
        } else {
            if fewer == 1 {
                let i = choose|i: u32|
                    {
                        &&& i < n - 1
                        &&& #[trigger] holds(modifiers, i)
                        &&& forall|j: u32| j < n - 1 && #[trigger] holds(modifiers, j) ==> j == i
                    };
                assert(holds(modifiers, i));
                assert(single_below(modifiers, n));
            }
            if single_below(modifiers, n) {
                let i = choose|i: u32|
                    {
                        &&& i < n
                        &&& #[trigger] holds(modifiers, i)
                        &&& forall|j: u32| j < n && #[trigger] holds(modifiers, j) ==> j == i
                    };
                assert(i < n - 1);
                assert(single_below(modifiers, (n - 1) as nat));
            }
        }
    }
}

/// The number that decimal digits spell.
pub open spec fn value(digits: Seq<char>) -> int
    decreases digits.len(),
{
    if digits.len() == 0 {
        0
    } else {
        10 * value(digits.drop_last()) + (digits.last() as int - '0' as int)
    }
}

/// A number in decimal is written in digits, spells the number, and begins with a zero
/// only if it is zero.
pub proof fn decimals_spell_their_number(n: nat)
    ensures
        value(text::decimal(n)) == n,
        text::decimal(n).len() > 0,
        forall|i: int|
            0 <= i < text::decimal(n).len() ==> '0' as int <= (#[trigger] text::decimal(n)[i]) as int
                && text::decimal(n)[i] as int <= '9' as int,
        text::decimal(n)[0] == '0' ==> n == 0,
    decreases n,
{
    if n < 10 {
        assert(text::decimal(n).drop_last() =~= Seq::empty());
        assert(value(text::decimal(n).drop_last()) == 0);
    } else {
        decimals_spell_their_number(n / 10);
        assert(text::decimal(n).drop_last() =~= text::decimal(n / 10));
        assert(text::decimal(n)[0] == text::decimal(n / 10)[0]);
    }
}

/// Ids read as their type's name with the number in brackets.
pub proof fn ids_show_their_number(n: u32)
    ensures
        HotkeyId(n).shown() == "HotkeyId("@ + text::decimal(n as nat) + ")"@,
        TapAloneId(n).shown() == "TapAloneId("@ + text::decimal(n as nat) + ")"@,
        TapPatternId(n).shown() == "TapPatternId("@ + text::decimal(n as nat) + ")"@,
{
}

/// A trigger reads as its kind with the key or the modifiers in brackets.
pub proof fn triggers_show_their_kind(key: Key, modifiers: Modifiers)
    ensures
        TriggerKey::Key(key).shown() == "Key("@ + key.spelled() + ")"@,
        TriggerKey::Modifier(modifiers).shown() == "Modifier("@ + modifiers.shown() + ")"@,
{
}

/// Time passes as numbers do: a span later and back is the span, and nothing has
/// passed since what lies ahead.
pub proof fn times_add_up(at: Instant, span: Duration, earlier: Instant)
    ensures
        at.nanos + span.nanos <= u128::MAX ==> at.plus(span).nanos == at.nanos + span.nanos,
        earlier.nanos <= at.nanos ==> at.nanos_since(earlier) == at.nanos - earlier.nanos,
        at.nanos <= earlier.nanos ==> at.nanos_since(earlier) == 0,
        at.nanos + span.nanos <= u128::MAX ==> at.plus(span).nanos_since(at) == span.nanos,
        at.nanos + span.nanos <= u128::MAX ==> vstd::std_specs::ops::AddSpec::add_spec(
            at,
            span,
        ).nanos == at.nanos + span.nanos,
{
}

/// Whether a text holds no plus sign.
pub open spec fn one_piece(piece: Seq<char>) -> bool {
    forall|i: int| 0 <= i < piece.len() ==> #[trigger] piece[i] != '+'
}

/// A text without a plus sign is one piece, and one more piece behind a plus sign
/// closes what stands before it.
pub proof fn pieces_are_read_one_by_one(head: Seq<char>, piece: Seq<char>)
    requires
        one_piece(piece),
    ensures
        Reading::of(piece) == (Reading {
            modifiers: Modifiers { bits: 0 },
            key: None,
            piece,
            ok: true,
        }),
        Reading::of(head.push('+') + piece) == (Reading { piece, ..Reading::of(head).closed() }),
    decreases piece.len(),
{
    let all = head.push('+') + piece;
    if piece.len() == 0 {
        assert(piece =~= Seq::empty());
        assert(all =~= head.push('+'));
        assert(head.push('+').drop_last() =~= head);
    } else {
        let less = piece.drop_last();
        assert forall|i: int| 0 <= i < less.len() implies #[trigger] less[i] != '+' by {
            assert(less[i] == piece[i]);
        }
        pieces_are_read_one_by_one(head, less);
        assert(all.drop_last() =~= head.push('+') + less);
        assert(all.last() == piece.last());
        assert(piece[piece.len() - 1] != '+');
        assert(less.push(piece.last()) =~= piece);
    }
}

/// A piece that names modifiers adds them to those before it; one that names a key is
/// accepted only if no key came before; and any other piece is refused.
pub proof fn pieces_add_up(read: Reading)
    ensures
        ({
            let next = read.closed();
            let modifiers = Modifiers::named(read.piece);
            let key = Key::named_from(read.piece, 0);
            &&& modifiers is Some ==> next.modifiers.bits == read.modifiers.bits
                | modifiers->0.bits && next.key == read.key && next.ok == read.ok
            &&& modifiers is None && key is Some ==> next.key == key && next.modifiers
                == read.modifiers && next.ok == (read.ok && read.key is None)
            &&& modifiers is None && key is None ==> !next.ok
        }),
{
}

/// Whether a text is a name but for the case of Latin letters.
pub open spec fn spelled_as(piece: Seq<char>, name: Seq<char>) -> bool {
    piece.len() == name.len() && forall|i: int|
        0 <= i < name.len() ==> lower(#[trigger] piece[i]) == lower(name[i])
}

proof fn lemma_spelled_as(piece: Seq<char>, name: Seq<char>)
    ensures
        spelled_as(piece, name) <==> spelling::same_but_case(piece, name),
        spelled_as(piece, name) && name.len() > 0 ==> lower(piece[0]) == lower(name[0]),
        spelled_as(piece, name) && name.len() > 1 ==> lower(piece[1]) == lower(name[1]),
{
    if spelled_as(piece, name) {
        assert forall|i: int| 0 <= i < piece.len() implies spelling::folded(#[trigger] piece[i])
            == spelling::folded(name[i]) by {
            assert(lower(piece[i]) == lower(name[i]));
        }
    }
    if spelling::same_but_case(piece, name) {
        assert forall|i: int| 0 <= i < name.len() implies lower(#[trigger] piece[i]) == lower(
            name[i],
        ) by {
            assert(spelling::folded(piece[i]) == spelling::folded(name[i]));
        }
    }
}

/// Each name stands for its modifier keys, in whatever case, and no other text for any.
pub proof fn modifiers_are_found_by_name(piece: Seq<char>)
    ensures
        spelled_as(piece, "cmd"@) ==> Modifiers::named(piece) == Some(Modifiers { bits: 0x3 }),
        spelled_as(piece, "cmd_left"@) ==> Modifiers::named(piece) == Some(Modifiers { bits: 0x1 }),
        spelled_as(piece, "cmd_right"@) ==> Modifiers::named(piece) == Some(Modifiers { bits: 0x2 }),
        spelled_as(piece, "ctrl"@) ==> Modifiers::named(piece) == Some(Modifiers { bits: 0xc }),
        spelled_as(piece, "ctrl_left"@) ==> Modifiers::named(piece) == Some(Modifiers { bits: 0x4 }),
        spelled_as(piece, "ctrl_right"@) ==> Modifiers::named(piece) == Some(Modifiers { bits: 0x8 }),
        spelled_as(piece, "opt"@) ==> Modifiers::named(piece) == Some(Modifiers { bits: 0x30 }),
        spelled_as(piece, "opt_left"@) ==> Modifiers::named(piece) == Some(Modifiers { bits: 0x10 }),
        spelled_as(piece, "opt_right"@) ==> Modifiers::named(piece) == Some(Modifiers { bits: 0x20 }),
        spelled_as(piece, "shift"@) ==> Modifiers::named(piece) == Some(Modifiers { bits: 0xc0 }),
        spelled_as(piece, "shift_left"@) ==> Modifiers::named(piece) == Some(Modifiers { bits: 0x40 }),
        spelled_as(piece, "shift_right"@) ==> Modifiers::named(piece) == Some(Modifiers { bits: 0x80 }),
        spelled_as(piece, "fn"@) ==> Modifiers::named(piece) == Some(Modifiers { bits: 0x100 }),
        !spelled_as(piece, "cmd"@)
            && !spelled_as(piece, "cmd_left"@)
            && !spelled_as(piece, "cmd_right"@)
            && !spelled_as(piece, "ctrl"@)
            && !spelled_as(piece, "ctrl_left"@)
            && !spelled_as(piece, "ctrl_right"@)
            && !spelled_as(piece, "opt"@)
            && !spelled_as(piece, "opt_left"@)
            && !spelled_as(piece, "opt_right"@)
            && !spelled_as(piece, "shift"@)
            && !spelled_as(piece, "shift_left"@)
            && !spelled_as(piece, "shift_right"@)
            && !spelled_as(piece, "fn"@) ==> Modifiers::named(piece) is None,
{
    reveal_strlit("cmd");
    reveal_strlit("cmd_left");
    reveal_strlit("cmd_right");
    reveal_strlit("ctrl");
    reveal_strlit("ctrl_left");
    reveal_strlit("ctrl_right");
    reveal_strlit("opt");
    reveal_strlit("opt_left");
    reveal_strlit("opt_right");
    reveal_strlit("shift");
    reveal_strlit("shift_left");
    reveal_strlit("shift_right");
    reveal_strlit("fn");
    lemma_spelled_as(piece, "cmd"@);
    lemma_spelled_as(piece, "cmd_left"@);
    lemma_spelled_as(piece, "cmd_right"@);
    lemma_spelled_as(piece, "ctrl"@);
    lemma_spelled_as(piece, "ctrl_left"@);
    lemma_spelled_as(piece, "ctrl_right"@);
    lemma_spelled_as(piece, "opt"@);
    lemma_spelled_as(piece, "opt_left"@);
    lemma_spelled_as(piece, "opt_right"@);
    lemma_spelled_as(piece, "shift"@);
    lemma_spelled_as(piece, "shift_left"@);
    lemma_spelled_as(piece, "shift_right"@);
    lemma_spelled_as(piece, "fn"@);
}

/// A key is found by its name in whatever case, and only by that.
pub proof fn keys_are_found_by_name(piece: Seq<char>, i: usize)
    requires
        i <= KEY_COUNT,
    ensures
        Key::named_from(piece, i) matches Some(key) ==> spelled_as(piece, key.spelled()),
        Key::named_from(piece, i) is None ==> forall|j: usize|
            i <= j < KEY_COUNT ==> !spelled_as(piece, (#[trigger] Key::at(j)).spelled()),
    decreases KEY_COUNT - i,
{
    if i < KEY_COUNT {
        lemma_spelled_as(piece, Key::at(i).spelled());
        keys_are_found_by_name(piece, (i + 1) as usize);
    }
}

/// A text spells a hotkey exactly if every piece is accepted, and a refusal gives the
/// text back.
pub proof fn texts_are_read_or_given_back(text: Seq<char>, r: Result<Hotkey, Error>)
    requires
        Hotkey::reads(text, r),
    ensures
        r is Ok <==> Reading::of(text).closed().ok,
        r matches Ok(hotkey) ==> hotkey.modifiers == Reading::of(text).closed().modifiers
            && hotkey.key == Reading::of(text).closed().key,
        r matches Err(e) ==> e is InvalidHotkey && (e->InvalidHotkey_0)@ == text,
{
}

/// Texts that differ only in the case of Latin letters spell the same hotkey, or
/// neither spells one.
pub proof fn case_makes_no_difference(a: Seq<char>, b: Seq<char>)
    requires
        a.len() == b.len(),
        forall|i: int|
            0 <= i < a.len() ==> (#[trigger] a[i] == b[i] || lower(a[i]) == b[i] as int || a[i] as int
                == lower(b[i])),
    ensures
        Reading::of(a).closed().ok == Reading::of(b).closed().ok,
        Reading::of(a).closed().modifiers == Reading::of(b).closed().modifiers,
        Reading::of(a).closed().key == Reading::of(b).closed().key,
{
    lemma_same_reading(a, b);
    lemma_same_piece(Reading::of(a).piece, Reading::of(b).piece, 0);
}

/// The code of a capital Latin letter as a small one, and of anything else as it is.
pub open spec fn lower(c: char) -> int {
    if 65 <= c as int <= 90 {
        c as int + 32
    } else {
        c as int
    }
}

proof fn lemma_same_piece(a: Seq<char>, b: Seq<char>, i: usize)
    requires
        spelling::same_but_case(a, b),
    ensures
        Modifiers::named(a) == Modifiers::named(b),
        i <= KEY_COUNT ==> Key::named_from(a, i) == Key::named_from(b, i),
    decreases KEY_COUNT - i,
{
    assert forall|name: Seq<char>| #[trigger] spelling::same_but_case(a, name)
        <==> spelling::same_but_case(b, name) by {
        if spelling::same_but_case(a, name) {
            assert forall|k: int| 0 <= k < b.len() implies spelling::folded(#[trigger] b[k])
                == spelling::folded(name[k]) by {
                assert(spelling::folded(a[k]) == spelling::folded(b[k]));
            }
        }
        if spelling::same_but_case(b, name) {
            assert forall|k: int| 0 <= k < a.len() implies spelling::folded(#[trigger] a[k])
                == spelling::folded(name[k]) by {
                assert(spelling::folded(b[k]) == spelling::folded(name[k]));
            }
        }
    }
    if i < KEY_COUNT {
        lemma_same_piece(a, b, (i + 1) as usize);
    }
}

proof fn lemma_same_reading(a: Seq<char>, b: Seq<char>)
    requires
        a.len() == b.len(),
        forall|i: int|
            0 <= i < a.len() ==> (#[trigger] a[i] == b[i] || lower(a[i]) == b[i] as int || a[i] as int
                == lower(b[i])),
    ensures
        Reading::of(a).ok == Reading::of(b).ok,
        Reading::of(a).modifiers == Reading::of(b).modifiers,
        Reading::of(a).key == Reading::of(b).key,
        spelling::same_but_case(Reading::of(a).piece, Reading::of(b).piece),
    decreases a.len(),
{
    if a.len() > 0 {
        let x = a.drop_last();
        let y = b.drop_last();
        assert forall|i: int| 0 <= i < x.len() implies (#[trigger] x[i] == y[i] || lower(x[i])
            == y[i] as int || x[i] as int == lower(y[i])) by {
            assert(x[i] == a[i] && y[i] == b[i]);
        }
        lemma_same_reading(x, y);
        let last = a.len() - 1;
        assert(a[last] == b[last] || lower(a[last]) == b[last] as int || a[last] as int == lower(
            b[last],
        ));
        lemma_same_piece(Reading::of(x).piece, Reading::of(y).piece, 0);
    }
}

} // verus!
