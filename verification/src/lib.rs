//! A CHIP-8 virtual machine with verified fetch-decode-execute semantics.
//!
//! The core interprets the 8-bit bytecode instruction set over a fixed data
//! model (4096 bytes of memory, 16 registers, a 16-entry call stack, two
//! timers, a 64x32 monochrome framebuffer and a 16-key keypad snapshot).
//! Rendering and input polling are left to external collaborators behind the
//! narrow `VideoDriver` and `InputDriver` interfaces.

use vstd::prelude::*;

pub mod chip8;
pub mod input_driver;
pub mod keypad;
pub mod video_driver;

verus! {

const MEMORY_SIZE: usize = 4096;

const REGISTERS_COUNT: usize = 16;

const GFX_SIZE: usize = 2048;

const STACK_SIZE: usize = 16;

const KEYPAD_SIZE: usize = 16;

/// The mathematical view of a [`CPU`] record.
#[verifier::ext_equal]
pub struct CPUView {
    pub memory: Seq<u8>,
    pub opcode: u16,
    pub v: Seq<u8>,
    pub i: u16,
    pub pc: u16,
    pub delay_timer: u8,
    pub sound_timer: u8,
    pub gfx: Seq<u8>,
    pub stack: Seq<u16>,
    pub sp: u16,
    pub key: Seq<u8>,
}

/// A self-contained CPU state record: the same data model as [`chip8::Chip8`],
/// but bundled with its own pixel grid and key snapshot and no behaviour yet.
pub struct CPU {
    memory: Vec<u8>,
    opcode: u16,
    v: Vec<u8>,
    i: u16,
    pc: u16,
    delay_timer: u8,
    sound_timer: u8,
    gfx: Vec<u8>,
    stack: Vec<u16>,
    sp: u16,
    key: Vec<u8>,
}

impl View for CPU {
    type V = CPUView;

    closed spec fn view(&self) -> CPUView {
        CPUView {
            memory: self.memory@,
            opcode: self.opcode,
            v: self.v@,
            i: self.i,
            pc: self.pc,
            delay_timer: self.delay_timer,
            sound_timer: self.sound_timer,
            gfx: self.gfx@,
            stack: self.stack@,
            sp: self.sp,
            key: self.key@,
        }
    }
}

/// The state a fresh [`CPU`] starts in: everything zeroed except the glyph
/// font preloaded at addresses 0..80 and the program counter at 0x200.
pub open spec fn initial_cpu() -> CPUView {
    CPUView {
        memory: Seq::new(4096, |j: int| if j < 80 { chip8::fontset_spec()[j] } else { 0u8 }),
        opcode: 0,
        v: Seq::new(16, |j: int| 0u8),
        i: 0,
        pc: 0x200,
        delay_timer: 0,
        sound_timer: 0,
        gfx: Seq::new(2048, |j: int| 0u8),
        stack: Seq::new(16, |j: int| 0u16),
        sp: 0,
        key: Seq::new(16, |j: int| 0u8),
    }
}

impl CPU {
    /// A fresh record in the `initial_cpu` state.
    pub fn new() -> (cpu: CPU)
        ensures
            cpu@ == initial_cpu(),
    {
        let mut memory = chip8::zero_bytes(MEMORY_SIZE);
        let font = chip8::fontset();
        let mut j: usize = 0;
        while j < 80
            invariant
                j <= 80,
                memory@.len() == 4096,
                font@ == chip8::fontset_spec(),
                forall|k: int| 0 <= k < j ==> memory@[k] == chip8::fontset_spec()[k],
                forall|k: int| j <= k < 4096 ==> memory@[k] == 0,
            decreases 80 - j,
        {
            memory[j] = font[j];
            j += 1;
        }

        let cpu = CPU {
            memory,
            opcode: 0,
            v: chip8::zero_bytes(REGISTERS_COUNT),
            i: 0,
            pc: 0x200,
            delay_timer: 0,
            sound_timer: 0,
            gfx: chip8::zero_bytes(GFX_SIZE),
            stack: chip8::zero_words(STACK_SIZE),
            sp: 0,
            key: chip8::zero_bytes(KEYPAD_SIZE),
        };
        proof {
            assert(cpu@ =~= initial_cpu());
        }
        cpu
    }
}

} // verus!
