//! The 16-key keypad snapshot and the fixed physical-to-logical key table.

use vstd::prelude::*;

verus! {

const KEYPAD_SIZE: usize = 16;

/// A physical key on the host keyboard that the keypad understands.
///
/// The input collaborator translates device events into these; every other
/// physical key is simply ignored before reaching the core.
#[derive(Clone, Copy, Debug, PartialEq, Eq, Structural)]
pub enum PhysicalKey {
    Num1,
    Num2,
    Num3,
    Num4,
    Q,
    W,
    E,
    R,
    A,
    S,
    D,
    F,
    Z,
    X,
    C,
    V,
}

/// The fixed mapping from a physical key to the logical key `0x0`..`0xF`
/// it stands for: `1 2 3 4 / Q W E R / A S D F / Z X C V` map to
/// `1 2 3 C / 4 5 6 D / 7 8 9 E / A 0 B F`.
pub open spec fn chip8_keycode(key: PhysicalKey) -> int {
    match key {
        PhysicalKey::Num1 => 0x1,
        PhysicalKey::Num2 => 0x2,
        PhysicalKey::Num3 => 0x3,
        PhysicalKey::Num4 => 0xc,
        PhysicalKey::Q => 0x4,
        PhysicalKey::W => 0x5,
        PhysicalKey::E => 0x6,
        PhysicalKey::R => 0xd,
        PhysicalKey::A => 0x7,
        PhysicalKey::S => 0x8,
        PhysicalKey::D => 0x9,
        PhysicalKey::F => 0xe,
        PhysicalKey::Z => 0xa,
        PhysicalKey::X => 0x0,
        PhysicalKey::C => 0xb,
        PhysicalKey::V => 0xf,
    }
}

/// The 16-entry boolean snapshot of which logical keys are held down.
pub struct Keypad {
    keyboard: Vec<bool>,
}

impl View for Keypad {
    type V = Seq<bool>;

    closed spec fn view(&self) -> Seq<bool> {
        self.keyboard@
    }
}

impl Keypad {
    pub open spec fn wf(&self) -> bool {
        self@.len() == 16
    }

    /// A keypad with no key pressed.
    pub fn new() -> (keypad: Keypad)
        ensures
            keypad.wf(),
            forall|k: int| 0 <= k < 16 ==> !keypad@[k],
    {
        let mut keyboard: Vec<bool> = Vec::new();
        let mut j: usize = 0;
        while j < KEYPAD_SIZE
            invariant
                j <= 16,
                keyboard@.len() == j,
                forall|k: int| 0 <= k < j ==> !keyboard@[k],
            decreases 16 - j,
        {
            keyboard.push(false);
            j += 1;
        }
        Keypad { keyboard }
    }

    /// Records the logical key behind `key` as pressed or released.
    pub fn set_key_state(&mut self, key: PhysicalKey, pressed: bool)
        requires
            old(self).wf(),
        ensures
            final(self).wf(),
            final(self)@ == old(self)@.update(chip8_keycode(key), pressed),
    {
        match key {
            PhysicalKey::Num1 => self.keyboard[0x1] = pressed,
            PhysicalKey::Num2 => self.keyboard[0x2] = pressed,
            PhysicalKey::Num3 => self.keyboard[0x3] = pressed,
            PhysicalKey::Num4 => self.keyboard[0xc] = pressed,
            PhysicalKey::Q => self.keyboard[0x4] = pressed,
            PhysicalKey::W => self.keyboard[0x5] = pressed,
            PhysicalKey::E => self.keyboard[0x6] = pressed,
            PhysicalKey::R => self.keyboard[0xd] = pressed,
            PhysicalKey::A => self.keyboard[0x7] = pressed,
            PhysicalKey::S => self.keyboard[0x8] = pressed,
            PhysicalKey::D => self.keyboard[0x9] = pressed,
            PhysicalKey::F => self.keyboard[0xe] = pressed,
            PhysicalKey::Z => self.keyboard[0xa] = pressed,
            PhysicalKey::X => self.keyboard[0x0] = pressed,
            PhysicalKey::C => self.keyboard[0xb] = pressed,
            PhysicalKey::V => self.keyboard[0xf] = pressed,
        }
    }

    /// Marks the logical key behind `key` as held down.
    pub fn press_key(&mut self, key: PhysicalKey)
        requires
            old(self).wf(),
        ensures
            final(self).wf(),
            final(self)@ == old(self)@.update(chip8_keycode(key), true),
    {
        self.set_key_state(key, true)
    }

    /// Marks the logical key behind `key` as released.
    pub fn unpress_key(&mut self, key: PhysicalKey)
        requires
            old(self).wf(),
        ensures
            final(self).wf(),
            final(self)@ == old(self)@.update(chip8_keycode(key), false),
    {
        self.set_key_state(key, false)
    }

    /// Sets the state of logical key `code` directly; a code beyond the 16
    /// keys is ignored.
    pub fn set_key(&mut self, code: usize, pressed: bool)
        requires
            old(self).wf(),
        ensures
            final(self).wf(),
            final(self)@ == (if code < 16 {
                old(self)@.update(code as int, pressed)
            } else {
                old(self)@
            }),
    {
        if code < KEYPAD_SIZE {
            self.keyboard[code] = pressed;
        }
    }

    /// Whether logical key `code` is currently held down.
    pub fn is_pressed(&self, code: usize) -> (pressed: bool)
        requires
            self.wf(),
            code < 16,
        ensures
            pressed == self@[code as int],
    {
        self.keyboard[code]
    }
}

} // verus!
