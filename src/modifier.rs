use vstd::prelude::*;

use crate::text::str_equals;

verus! {

/// A modifier key of the core protocol that a binding may require.
#[derive(Clone, Copy, Debug, PartialEq, Eq, Structural)]
pub enum Modifier {
    Shift,
    Control,
    Mod1,
    Mod2,
    Mod3,
    Mod4,
    Mod5,
}

/// The modifier that a lower-case token names, if it names one.
pub open spec fn modifier_named(name: Seq<char>) -> Option<Modifier> {
    if name == "shift"@ {
        Some(Modifier::Shift)
    } else if name == "control"@ || name == "ctrl"@ {
        Some(Modifier::Control)
    } else if name == "alt"@ || name == "mod1"@ {
        Some(Modifier::Mod1)
    } else if name == "numlock"@ || name == "mod2"@ {
        Some(Modifier::Mod2)
    } else if name == "mod3"@ {
        Some(Modifier::Mod3)
    } else if name == "super"@ || name == "mod4"@ || name == "tux"@ {
        Some(Modifier::Mod4)
    } else if name == "mod5"@ {
        Some(Modifier::Mod5)
    } else {
        None
    }
}

/// Looks a lower-case token up in the table of modifier names.
pub fn modifier_from_name(name: &str) -> (r: Option<Modifier>)
    ensures
        r == modifier_named(name@),
{
    if str_equals(name, "shift") {
        Some(Modifier::Shift)
    } else if str_equals(name, "control") || str_equals(name, "ctrl") {
        Some(Modifier::Control)
    } else if str_equals(name, "alt") || str_equals(name, "mod1") {
        Some(Modifier::Mod1)
    } else if str_equals(name, "numlock") || str_equals(name, "mod2") {
        Some(Modifier::Mod2)
    } else if str_equals(name, "mod3") {
        Some(Modifier::Mod3)
    } else if str_equals(name, "super") || str_equals(name, "mod4") || str_equals(name, "tux") {
        Some(Modifier::Mod4)
    } else if str_equals(name, "mod5") {
        Some(Modifier::Mod5)
    } else {
        None
    }
}

/// Bit of a modifier in the core protocol's modifier mask, the encoding that
/// key grabs are requested under.
pub open spec fn grab_bit(m: Modifier) -> int {
    match m {
        Modifier::Shift => 1,
        Modifier::Control => 4,
        Modifier::Mod1 => 8,
        Modifier::Mod2 => 16,
        Modifier::Mod3 => 32,
        Modifier::Mod4 => 64,
        Modifier::Mod5 => 128,
    }
}

/// Bit of a modifier in the key-and-button mask that key-press events carry.
pub open spec fn event_bit(m: Modifier) -> int {
    match m {
        Modifier::Shift => 1,
        Modifier::Control => 4,
        Modifier::Mod1 => 8,
        Modifier::Mod2 => 16,
        Modifier::Mod3 => 32,
        Modifier::Mod4 => 64,
        Modifier::Mod5 => 128,
    }
}

/// Sum of `bit(m)` over the modifiers of `s`; the bits are distinct powers of
/// two, so this is their union.
pub open spec fn mask_sum(s: Set<Modifier>, bit: spec_fn(Modifier) -> int) -> int {
    (if s.contains(Modifier::Shift) { bit(Modifier::Shift) } else { 0 })
        + (if s.contains(Modifier::Control) { bit(Modifier::Control) } else { 0 })
        + (if s.contains(Modifier::Mod1) { bit(Modifier::Mod1) } else { 0 })
        + (if s.contains(Modifier::Mod2) { bit(Modifier::Mod2) } else { 0 })
        + (if s.contains(Modifier::Mod3) { bit(Modifier::Mod3) } else { 0 })
        + (if s.contains(Modifier::Mod4) { bit(Modifier::Mod4) } else { 0 })
        + (if s.contains(Modifier::Mod5) { bit(Modifier::Mod5) } else { 0 })
}

/// The grab mask of a set of modifiers.
pub open spec fn grab_mask_of(s: Set<Modifier>) -> u16 {
    mask_sum(s, |m: Modifier| grab_bit(m)) as u16
}

/// The event-state mask of a set of modifiers.
pub open spec fn event_mask_of(s: Set<Modifier>) -> u16 {
    mask_sum(s, |m: Modifier| event_bit(m)) as u16
}

/// A set of modifiers, one flag per modifier.
#[derive(Clone, Copy, Debug, PartialEq, Eq, Structural)]
pub struct ModifierSet {
    pub shift: bool,
    pub control: bool,
    pub mod1: bool,
    pub mod2: bool,
    pub mod3: bool,
    pub mod4: bool,
    pub mod5: bool,
}

impl View for ModifierSet {
    type V = Set<Modifier>;

    open spec fn view(&self) -> Set<Modifier> {
        Set::new(
            |m: Modifier|
                match m {
                    Modifier::Shift => self.shift,
                    Modifier::Control => self.control,
                    Modifier::Mod1 => self.mod1,
                    Modifier::Mod2 => self.mod2,
                    Modifier::Mod3 => self.mod3,
                    Modifier::Mod4 => self.mod4,
                    Modifier::Mod5 => self.mod5,
                },
        )
    }
}

impl ModifierSet {
    /// The set without any modifier.
    pub fn empty() -> (r: ModifierSet)
        ensures
            r@ == Set::<Modifier>::empty(),
    {
        let r = ModifierSet {
            shift: false,
            control: false,
            mod1: false,
            mod2: false,
            mod3: false,
            mod4: false,
            mod5: false,
        };
        assert(r@ =~= Set::<Modifier>::empty());
        r
    }

    /// The set with `m` added.
    pub fn with(self, m: Modifier) -> (r: ModifierSet)
        ensures
            r@ == self@.insert(m),
    {
        let mut r = self;
        match m {
            Modifier::Shift => r.shift = true,
            Modifier::Control => r.control = true,
            Modifier::Mod1 => r.mod1 = true,
            Modifier::Mod2 => r.mod2 = true,
            Modifier::Mod3 => r.mod3 = true,
            Modifier::Mod4 => r.mod4 = true,
            Modifier::Mod5 => r.mod5 = true,
        }
        assert(r@ =~= self@.insert(m));
        r
    }

    /// The mask under which key grabs for this set are requested.
    pub fn grab_mask(&self) -> (r: u16)
        ensures
            r == grab_mask_of(self@),
    {
        let mut r: u16 = 0;
        if self.shift {
            r = r + 1;
        }
        if self.control {
            r = r + 4;
        }
        if self.mod1 {
            r = r + 8;
        }
        if self.mod2 {
            r = r + 16;
        }
        if self.mod3 {
            r = r + 32;
        }
        if self.mod4 {
            r = r + 64;
        }
        if self.mod5 {
            r = r + 128;
        }
        r
    }

    /// The mask that a key-press event carries when exactly this set is held.
    pub fn event_mask(&self) -> (r: u16)
        ensures
            r == event_mask_of(self@),
    {
        let mut r: u16 = 0;
        if self.shift {
            r = r + 1;
        }
        if self.control {
            r = r + 4;
        }
        if self.mod1 {
            r = r + 8;
        }
        if self.mod2 {
            r = r + 16;
        }
        if self.mod3 {
            r = r + 32;
        }
        if self.mod4 {
            r = r + 64;
        }
        if self.mod5 {
            r = r + 128;
        }
        r
    }
}

} // verus!
