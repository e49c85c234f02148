//! Modifier keys, told apart by side.

use vstd::prelude::*;

use crate::text;

verus! {

/// The bits that stand for a modifier key.
pub const ALL_BITS: u32 = 0x1ff;

/// The number of modifier keys.
pub const FLAG_COUNT: u32 = 9;

/// A set of modifier keys, one bit for each physical key.
#[derive(Debug, Clone, Copy, PartialEq, Eq, Structural, Hash)]
pub struct Modifiers {
    pub bits: u32,
}

impl Modifiers {
    /// No modifier at all.
    #[verifier::allow_in_spec]
    pub fn empty() -> Modifiers
        returns
            (Modifiers { bits: 0x0 }),
    {
        Modifiers { bits: 0x0 }
    }

    /// The left command key.
    #[verifier::allow_in_spec]
    pub fn cmd_left() -> Modifiers
        returns
            (Modifiers { bits: 0x1 }),
    {
        Modifiers { bits: 0x1 }
    }

    /// The right command key.
    #[verifier::allow_in_spec]
    pub fn cmd_right() -> Modifiers
        returns
            (Modifiers { bits: 0x2 }),
    {
        Modifiers { bits: 0x2 }
    }

    /// The command key on either side.
    #[verifier::allow_in_spec]
    pub fn cmd() -> Modifiers
        returns
            (Modifiers { bits: 0x3 }),
    {
        Modifiers { bits: 0x3 }
    }

    /// The left control key.
    #[verifier::allow_in_spec]
    pub fn ctrl_left() -> Modifiers
        returns
            (Modifiers { bits: 0x4 }),
    {
        Modifiers { bits: 0x4 }
    }

    /// The right control key.
    #[verifier::allow_in_spec]
    pub fn ctrl_right() -> Modifiers
        returns
            (Modifiers { bits: 0x8 }),
    {
        Modifiers { bits: 0x8 }
    }

    /// The control key on either side.
    #[verifier::allow_in_spec]
    pub fn ctrl() -> Modifiers
        returns
            (Modifiers { bits: 0xc }),
    {
        Modifiers { bits: 0xc }
    }

    /// The left option key.
    #[verifier::allow_in_spec]
    pub fn opt_left() -> Modifiers
        returns
            (Modifiers { bits: 0x10 }),
    {
        Modifiers { bits: 0x10 }
    }

    /// The right option key.
    #[verifier::allow_in_spec]
    pub fn opt_right() -> Modifiers
        returns
            (Modifiers { bits: 0x20 }),
    {
        Modifiers { bits: 0x20 }
    }

    /// The option key on either side.
    #[verifier::allow_in_spec]
    pub fn opt() -> Modifiers
        returns
            (Modifiers { bits: 0x30 }),
    {
        Modifiers { bits: 0x30 }
    }

    /// The left shift key.
    #[verifier::allow_in_spec]
    pub fn shift_left() -> Modifiers
        returns
            (Modifiers { bits: 0x40 }),
    {
        Modifiers { bits: 0x40 }
    }

    /// The right shift key.
    #[verifier::allow_in_spec]
    pub fn shift_right() -> Modifiers
        returns
            (Modifiers { bits: 0x80 }),
    {
        Modifiers { bits: 0x80 }
    }

    /// The shift key on either side.
    #[verifier::allow_in_spec]
    pub fn shift() -> Modifiers
        returns
            (Modifiers { bits: 0xc0 }),
    {
        Modifiers { bits: 0xc0 }
    }

    /// The function key.
    #[verifier::allow_in_spec]
    pub fn function() -> Modifiers
        returns
            (Modifiers { bits: 0x100 }),
    {
        Modifiers { bits: 0x100 }
    }

    /// The bits of the set.
    #[verifier::allow_in_spec]
    pub fn bits(&self) -> u32
        returns
            self.bits,
    {
        self.bits
    }

    /// Whether the set holds no key.
    #[verifier::allow_in_spec]
    pub fn is_empty(&self) -> bool
        returns
            self.bits == 0,
    {
        self.bits == 0
    }

    /// Whether the set holds one of the keys of another set.
    #[verifier::allow_in_spec]
    pub fn intersects(&self, other: Modifiers) -> bool
        returns
            self.bits & other.bits != 0,
    {
        self.bits & other.bits != 0
    }

    /// The number of keys among those of the lowest `n` bits.
    pub open spec fn keys_below(self, n: nat) -> nat
        decreases n,
    {
        if n == 0 {
            0
        } else if self.bits & (1u32 << ((n - 1) as u32)) != 0 {
            self.keys_below((n - 1) as nat) + 1
        } else {
            self.keys_below((n - 1) as nat)
        }
    }

    /// The number of keys in the set.
    pub open spec fn keys(self) -> nat {
        self.keys_below(32)
    }

    /// Counts the keys in the set.
    pub fn count(&self) -> (r: u32)
        ensures
            r == self.keys(),
    {
        let mut found: u32 = 0;
        let mut n: u32 = 0;
        while n < 32
            invariant
                n <= 32,
                found <= n,
                found == self.keys_below(n as nat),
            decreases 32 - n,
        {
            if self.bits & (1u32 << n) != 0 {
                found = found + 1;
            }
            n = n + 1;
        }
        found
    }

    /// Whether the keys held on one modifier's two sides are what a hotkey asks for.
    /// One that names both sides takes either; one that names a side, or
    /// none, takes exactly that.
    pub open spec fn family_matches(
        self,
        held: Modifiers,
        left: Modifiers,
        right: Modifiers,
    ) -> bool {
        if self.intersects(left) && self.intersects(right) {
            held.intersects(left) || held.intersects(right)
        } else {
            held.intersects(left) == self.intersects(left) && held.intersects(right)
                == self.intersects(right)
        }
    }

    fn check_family(&self, held: Modifiers, left: Modifiers, right: Modifiers) -> (r: bool)
        ensures
            r <==> self.family_matches(held, left, right),
    {
        if self.intersects(left) && self.intersects(right) {
            held.intersects(left) || held.intersects(right)
        } else {
            held.intersects(left) == self.intersects(left) && held.intersects(right)
                == self.intersects(right)
        }
    }

    /// Whether a hotkey with these modifiers is met while exactly `held` are down.
    pub open spec fn met_by(self, held: Modifiers) -> bool {
        &&& self.family_matches(held, Modifiers::cmd_left(), Modifiers::cmd_right())
        &&& self.family_matches(held, Modifiers::ctrl_left(), Modifiers::ctrl_right())
        &&& self.family_matches(held, Modifiers::opt_left(), Modifiers::opt_right())
        &&& self.family_matches(held, Modifiers::shift_left(), Modifiers::shift_right())
        &&& held.intersects(Modifiers::function()) == self.intersects(Modifiers::function())
    }

    /// Checks whether a hotkey with these modifiers is met by the held ones.
    pub fn matches(&self, held: Modifiers) -> (r: bool)
        ensures
            r <==> self.met_by(held),
    {
        self.check_family(held, Modifiers::cmd_left(), Modifiers::cmd_right())
            && self.check_family(held, Modifiers::ctrl_left(), Modifiers::ctrl_right())
            && self.check_family(held, Modifiers::opt_left(), Modifiers::opt_right())
            && self.check_family(held, Modifiers::shift_left(), Modifiers::shift_right())
            && held.intersects(Modifiers::function()) == self.intersects(Modifiers::function())
    }

    /// The name of the modifier key of a bit.
    pub open spec fn flag_name(i: int) -> Seq<char> {
        if i == 0 {
            "CMD_LEFT"@
        } else if i == 1 {
            "CMD_RIGHT"@
        } else if i == 2 {
            "CTRL_LEFT"@
        } else if i == 3 {
            "CTRL_RIGHT"@
        } else if i == 4 {
            "OPT_LEFT"@
        } else if i == 5 {
            "OPT_RIGHT"@
        } else if i == 6 {
            "SHIFT_LEFT"@
        } else if i == 7 {
            "SHIFT_RIGHT"@
        } else {
            "FN"@
        }
    }

    fn flag_text(i: u32) -> (r: &'static str)
        ensures
            r@ == Modifiers::flag_name(i as int),
    {
        match i {
            0 => "CMD_LEFT",
            1 => "CMD_RIGHT",
            2 => "CTRL_LEFT",
            3 => "CTRL_RIGHT",
            4 => "OPT_LEFT",
            5 => "OPT_RIGHT",
            6 => "SHIFT_LEFT",
            7 => "SHIFT_RIGHT",
            _ => "FN",
        }
    }

    /// The names of the keys among those of the lowest `n` bits.
    pub open spec fn names_below(self, n: nat) -> Seq<char>
        decreases n,
    {
        if n == 0 {
            Seq::empty()
        } else if self.bits & (1u32 << ((n - 1) as u32)) != 0 {
            text::with_item(self.names_below((n - 1) as nat), " | "@, Modifiers::flag_name(n - 1))
        } else {
            self.names_below((n - 1) as nat)
        }
    }

    /// The set as messages show it.
    pub open spec fn shown(self) -> Seq<char> {
        let names = self.names_below(FLAG_COUNT as nat);
        if names.len() == 0 {
            "Modifiers(0x0)"@
        } else {
            "Modifiers("@ + names + ")"@
        }
    }

    /// The set as messages show it.
    pub fn show(&self) -> (r: String)
        ensures
            r@ == self.shown(),
    {
        let mut names = String::new();
        let mut n: u32 = 0;
        while n < FLAG_COUNT
            invariant
                n <= FLAG_COUNT,
                names@ == self.names_below(n as nat),
            decreases FLAG_COUNT - n,
        {
            if self.bits & (1u32 << n) != 0 {
                text::push_item(&mut names, " | ", Modifiers::flag_text(n));
            }
            n = n + 1;
        }
        if names.as_str().is_empty() {
            "Modifiers(0x0)".to_string()
        } else {
            let mut r = "Modifiers(".to_string();
            r.append(names.as_str());
            r.append(")");
            r
        }
    }
}

/// The keys of either set.
impl core::ops::BitOr for Modifiers {
    type Output = Modifiers;

    fn bitor(self, rhs: Modifiers) -> (r: Modifiers) {
        Modifiers { bits: self.bits | rhs.bits }
    }
}

impl vstd::std_specs::ops::BitOrSpecImpl for Modifiers {
    open spec fn obeys_bitor_spec() -> bool {
        true
    }

    open spec fn bitor_req(self, rhs: Modifiers) -> bool {
        true
    }

    open spec fn bitor_spec(self, rhs: Modifiers) -> Modifiers {
        Modifiers { bits: self.bits | rhs.bits }
    }
}

/// The keys of both sets.
impl core::ops::BitAnd for Modifiers {
    type Output = Modifiers;

    fn bitand(self, rhs: Modifiers) -> (r: Modifiers) {
        Modifiers { bits: self.bits & rhs.bits }
    }
}

impl vstd::std_specs::ops::BitAndSpecImpl for Modifiers {
    open spec fn obeys_bitand_spec() -> bool {
        true
    }

    open spec fn bitand_req(self, rhs: Modifiers) -> bool {
        true
    }

    open spec fn bitand_spec(self, rhs: Modifiers) -> Modifiers {
        Modifiers { bits: self.bits & rhs.bits }
    }
}

/// The modifier keys that the set does not hold.
impl core::ops::Not for Modifiers {
    type Output = Modifiers;

    fn not(self) -> (r: Modifiers) {
        Modifiers { bits: !self.bits & ALL_BITS }
    }
}

impl vstd::std_specs::ops::NotSpecImpl for Modifiers {
    open spec fn obeys_not_spec() -> bool {
        true
    }

    open spec fn not_req(self) -> bool {
        true
    }

    open spec fn not_spec(self) -> Modifiers {
        Modifiers { bits: !self.bits & ALL_BITS }
    }
}

} // verus!
