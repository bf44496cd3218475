//! The CHIP-8 core: CPU state, instruction decoding, and the fetch-decode-
//! execute engine, with the per-instruction semantics stated over a
//! mathematical view of the machine.

use vstd::prelude::*;

use crate::keypad::{chip8_keycode, Keypad, PhysicalKey};
use crate::video_driver::{
    collision_prefix, draw_collision, draw_gfx, draw_prefix, lemma_bit_le_one,
    lemma_collision_prefix_step, lemma_draw_gfx_wf, lemma_draw_prefix_step, lemma_prefix_complete,
    lemma_prefix_empty, lemma_prefix_row, pixel_index, Framebuffer,
};

verus! {

const MEMORY_SIZE: usize = 4096;

const REGISTERS_COUNT: usize = 16;

const STACK_SIZE: usize = 16;

/// ROM bytes are loaded verbatim starting at this address, where the program
/// counter also starts.
pub const PROGRAM_START: usize = 0x200;

/// The largest ROM image that fits between `PROGRAM_START` and the end of
/// memory: 4096 - 0x200 bytes.
pub const MAX_ROM_SIZE: usize = 3584;

/// The preloaded glyph font: 16 glyphs (digits 0 to F), 5 bytes each,
/// occupying addresses 0..80.
pub open spec fn fontset_spec() -> Seq<u8> {
    seq![
        0xf0u8, 0x90, 0x90, 0x90, 0xf0, // 0
        0x20, 0x60, 0x20, 0x20, 0x70, // 1
        0xf0, 0x10, 0xf0, 0x80, 0xf0, // 2
        0xf0, 0x10, 0xf0, 0x10, 0xf0, // 3
        0x90, 0x90, 0xf0, 0x10, 0x10, // 4
        0xf0, 0x80, 0xf0, 0x10, 0xf0, // 5
        0xf0, 0x80, 0xf0, 0x90, 0xf0, // 6
        0xf0, 0x10, 0x20, 0x40, 0x40, // 7
        0xf0, 0x90, 0xf0, 0x90, 0xf0, // 8
        0xf0, 0x90, 0xf0, 0x10, 0xf0, // 9
        0xf0, 0x90, 0xf0, 0x90, 0x90, // A
        0xe0, 0x90, 0xe0, 0x90, 0xe0, // B
        0xf0, 0x80, 0x80, 0x80, 0xf0, // C
        0xe0, 0x90, 0x90, 0x90, 0xe0, // D
        0xf0, 0x80, 0xf0, 0x80, 0xf0, // E
        0xf0, 0x80, 0xf0, 0x80, 0x80, // F
    ]
}

/// The glyph font as bytes.
#[verifier::rlimit(100)]
pub(crate) fn fontset() -> (font: Vec<u8>)
    ensures
        font@ == fontset_spec(),
        font@.len() == 80,
{
    let mut font: Vec<u8> = Vec::new();
    font.push(0xf0);
    font.push(0x90);
    font.push(0x90);
    font.push(0x90);
    font.push(0xf0);
    font.push(0x20);
    font.push(0x60);
    font.push(0x20);
    font.push(0x20);
    font.push(0x70);
    font.push(0xf0);
    font.push(0x10);
    font.push(0xf0);
    font.push(0x80);
    font.push(0xf0);
    font.push(0xf0);
    font.push(0x10);
    font.push(0xf0);
    font.push(0x10);
    font.push(0xf0);
    font.push(0x90);
    font.push(0x90);
    font.push(0xf0);
    font.push(0x10);
    font.push(0x10);
    font.push(0xf0);
    font.push(0x80);
    font.push(0xf0);
    font.push(0x10);
    font.push(0xf0);
    font.push(0xf0);
    font.push(0x80);
    font.push(0xf0);
    font.push(0x90);
    font.push(0xf0);
    font.push(0xf0);
    font.push(0x10);
    font.push(0x20);
    font.push(0x40);
    font.push(0x40);
    font.push(0xf0);
    font.push(0x90);
    font.push(0xf0);
    font.push(0x90);
    font.push(0xf0);
    font.push(0xf0);
    font.push(0x90);
    font.push(0xf0);
    font.push(0x10);
    font.push(0xf0);
    font.push(0xf0);
    font.push(0x90);
    font.push(0xf0);
    font.push(0x90);
    font.push(0x90);
    font.push(0xe0);
    font.push(0x90);
    font.push(0xe0);
    font.push(0x90);
    font.push(0xe0);
    font.push(0xf0);
    font.push(0x80);
    font.push(0x80);
    font.push(0x80);
    font.push(0xf0);
    font.push(0xe0);
    font.push(0x90);
    font.push(0x90);
    font.push(0x90);
    font.push(0xe0);
    font.push(0xf0);
    font.push(0x80);
    font.push(0xf0);
    font.push(0x80);
    font.push(0xf0);
    font.push(0xf0);
    font.push(0x80);
    font.push(0xf0);
    font.push(0x80);
    font.push(0x80);
    proof {
        assert(font@ =~= fontset_spec());
    }
    font
}

/// A vector of `n` zero bytes.
pub(crate) fn zero_bytes(n: usize) -> (v: Vec<u8>)
    ensures
        v@.len() == n,
        forall|j: int| 0 <= j < n ==> v@[j] == 0,
{
    let mut v: Vec<u8> = Vec::new();
    let mut j: usize = 0;
    while j < n
        invariant
            j <= n,
            v@.len() == j,
            forall|k: int| 0 <= k < j ==> v@[k] == 0,
        decreases n - j,
    {
        v.push(0);
        j += 1;
    }
    v
}

/// A vector of `n` zero words.
pub(crate) fn zero_words(n: usize) -> (v: Vec<u16>)
    ensures
        v@.len() == n,
        forall|j: int| 0 <= j < n ==> v@[j] == 0,
{
    let mut v: Vec<u16> = Vec::new();
    let mut j: usize = 0;
    while j < n
        invariant
            j <= n,
            v@.len() == j,
            forall|k: int| 0 <= k < j ==> v@[k] == 0,
        decreases n - j,
    {
        v.push(0);
        j += 1;
    }
    v
}

/// A fatal condition: the current run cannot continue past it.
///
/// `UnknownOpcode` reports an opcode with no defined handler. The rest are
/// out-of-bounds conditions: stack overflow and underflow on call and return,
/// a memory or program-counter address past its range, and a jump or call
/// whose target would break the program counter's evenness invariant.
/// `RomTooLarge` rejects a ROM image longer than `MAX_ROM_SIZE` at load time.
#[derive(Clone, Copy, Debug, PartialEq, Eq, Structural)]
pub enum Chip8Error {
    UnknownOpcode { opcode: u16, pc: u16 },
    OutOfBoundsAccess { opcode: u16, pc: u16, address: u16 },
    StackOverflow { opcode: u16, pc: u16 },
    StackUnderflow { opcode: u16, pc: u16 },
    MisalignedJump { opcode: u16, pc: u16, target: u16 },
    RomTooLarge { length: usize },
}

/// Register index X: bits 8-11 of the opcode.
pub open spec fn op_x(op: u16) -> u16 {
    (op & 0x0f00) >> 8
}

/// Register index Y: bits 4-7 of the opcode.
pub open spec fn op_y(op: u16) -> u16 {
    (op & 0x00f0) >> 4
}

/// Nibble N: bits 0-3 of the opcode.
pub open spec fn op_n(op: u16) -> u16 {
    op & 0x000f
}

/// Byte immediate KK: bits 0-7 of the opcode.
pub open spec fn op_kk(op: u16) -> u8 {
    (op & 0x00ff) as u8
}

/// 12-bit address NNN: bits 0-11 of the opcode.
pub open spec fn op_nnn(op: u16) -> u16 {
    op & 0x0fff
}

/// The decoder's fields always fit their purpose: register indices are below
/// 16, and addresses below 4096.
pub proof fn lemma_opcode_fields(op: u16)
    by (bit_vector)
    ensures
        (op & 0x0f00) >> 8 < 16,
        (op & 0x00f0) >> 4 < 16,
        (op & 0x000f) < 16,
        (op & 0x00ff) < 256,
        (op & 0x0fff) < 4096,
{
}

/// The mathematical view of the whole machine state.
#[verifier::ext_equal]
pub struct Chip8View {
    /// The last fetched opcode word.
    pub opcode: u16,
    /// 4096 addressable bytes.
    pub memory: Seq<u8>,
    /// The 16 general-purpose registers; register 15 doubles as the flag
    /// register.
    pub registers: Seq<u8>,
    /// The 12-bit index register used as a memory pointer.
    pub index_counter: u16,
    /// The program counter.
    pub pc: u16,
    pub delay_timer: u8,
    pub sound_timer: u8,
    /// The 16 call-stack slots; only the first `stack_pointer` hold return
    /// addresses.
    pub stack: Seq<u16>,
    pub stack_pointer: usize,
    /// The 64x32 pixel grid, flat and row-major.
    pub gfx: Seq<u8>,
    /// Whether the grid changed since it was last presented.
    pub draw_flag: bool,
    /// The 16-key snapshot the core reads.
    pub keypad: Seq<bool>,
}

impl Chip8View {
    /// Well-formedness: fixed sizes, a program counter that is even and in
    /// `[0, 4094]`, a stack pointer in `[0, 16]` with every live return
    /// address even and in range, a 12-bit index register, and 1-bit pixels.
    pub open spec fn wf(self) -> bool {
        &&& self.memory.len() == 4096
        &&& self.registers.len() == 16
        &&& self.stack.len() == 16
        &&& self.gfx.len() == 2048
        &&& self.keypad.len() == 16
        &&& self.pc % 2 == 0
        &&& self.pc <= 4094
        &&& self.stack_pointer <= 16
        &&& forall|j: int|
            0 <= j < self.stack_pointer ==> #[trigger] self.stack[j] % 2 == 0 && self.stack[j]
                <= 4094
        &&& self.index_counter <= 4095
        &&& forall|g: int| 0 <= g < 2048 ==> #[trigger] self.gfx[g] <= 1
    }
}

/// The state a fresh machine starts in: zeroed registers, timers, stack,
/// screen and keys; the font preloaded at addresses 0..80; the program
/// counter at `PROGRAM_START`.
pub open spec fn initial_chip8() -> Chip8View {
    Chip8View {
        opcode: 0,
        memory: Seq::new(4096, |j: int| if j < 80 { fontset_spec()[j] } else { 0u8 }),
        registers: Seq::new(16, |j: int| 0u8),
        index_counter: 0,
        pc: 0x200,
        delay_timer: 0,
        sound_timer: 0,
        stack: Seq::new(16, |j: int| 0u16),
        stack_pointer: 0,
        gfx: Seq::new(2048, |j: int| 0u8),
        draw_flag: false,
        keypad: Seq::new(16, |j: int| false),
    }
}

/// The memory after loading `rom` verbatim at `PROGRAM_START`.
pub open spec fn loaded_memory(memory: Seq<u8>, rom: Seq<u8>) -> Seq<u8> {
    Seq::new(
        4096,
        |j: int| if 0x200 <= j < 0x200 + rom.len() {
            rom[j - 0x200]
        } else {
            memory[j]
        },
    )
}

/// A timer value one tick later: decremented when positive, floored at zero.
pub open spec fn tick_timer(t: u8) -> u8 {
    if t > 0 {
        (t - 1) as u8
    } else {
        0
    }
}

/// Both timers one tick later.
pub open spec fn tick_timers(s: Chip8View) -> Chip8View {
    Chip8View {
        delay_timer: tick_timer(s.delay_timer),
        sound_timer: tick_timer(s.sound_timer),
        ..s
    }
}

/// The opcode word at the program counter: two bytes combined big-endian.
pub open spec fn fetch_op(s: Chip8View) -> u16 {
    ((s.memory[s.pc as int] as u16) << 8) | (s.memory[s.pc as int + 1] as u16)
}

/// The state right after the fetch step: the opcode register holds the word
/// at the program counter.
pub open spec fn fetched(s: Chip8View) -> Chip8View {
    Chip8View { opcode: fetch_op(s), ..s }
}

/// Whether `op` decodes to an instruction this machine implements.
pub open spec fn op_known(op: u16) -> bool {
    let fam = op & 0xf000;
    if fam == 0x0000 {
        op & 0x00ff == 0xe0 || op & 0x00ff == 0xee
    } else if fam == 0x1000 || fam == 0x2000 || fam == 0x3000 || fam == 0x4000 || fam == 0x6000
        || fam == 0x7000 {
        true
    } else if fam == 0x8000 {
        let sub = op & 0x000f;
        sub == 0x0 || sub == 0x2 || sub == 0x4 || sub == 0x5
    } else if fam == 0xa000 || fam == 0xc000 || fam == 0xd000 {
        true
    } else if fam == 0xe000 {
        op & 0x00ff == 0x9e || op & 0x00ff == 0xa1
    } else if fam == 0xf000 {
        let sub = op & 0x00ff;
        sub == 0x07 || sub == 0x15 || sub == 0x18 || sub == 0x29 || sub == 0x33 || sub == 0x65
    } else {
        false
    }
}

/// Whether a conditional-skip instruction's condition holds: equality with
/// the immediate for skip-eq-imm, inequality for skip-ne-imm, and the key
/// state under register X for the key skips.
pub open spec fn skip_condition(s: Chip8View) -> bool {
    let op = s.opcode;
    let fam = op & 0xf000;
    if fam == 0x3000 {
        s.registers[op_x(op) as int] == op_kk(op)
    } else if fam == 0x4000 {
        s.registers[op_x(op) as int] != op_kk(op)
    } else if fam == 0xe000 {
        let pressed = s.keypad[s.registers[op_x(op) as int] as int];
        if op & 0x00ff == 0x9e {
            pressed
        } else {
            !pressed
        }
    } else {
        false
    }
}

/// The error, if any, of advancing the program counter by `amount`: the new
/// value may not pass 4094, the last address a whole opcode fits at.
pub open spec fn pc_advance_err(s: Chip8View, amount: int) -> Option<Chip8Error> {
    if s.pc + amount > 4094 {
        Some(
            Chip8Error::OutOfBoundsAccess {
                opcode: s.opcode,
                pc: s.pc,
                address: (s.pc + amount) as u16,
            },
        )
    } else {
        None
    }
}

/// The fatal error, if any, that executing the already-fetched opcode of `s`
/// runs into; `None` exactly when the cycle succeeds.
pub open spec fn cycle_err(s: Chip8View) -> Option<Chip8Error> {
    let op = s.opcode;
    let fam = op & 0xf000;
    if !op_known(op) {
        Some(Chip8Error::UnknownOpcode { opcode: op, pc: s.pc })
    } else if fam == 0x0000 {
        if op & 0x00ff == 0xe0 {
            pc_advance_err(s, 2)
        } else if s.stack_pointer == 0 {
            Some(Chip8Error::StackUnderflow { opcode: op, pc: s.pc })
        } else {
            None
        }
    } else if fam == 0x1000 {
        if op_nnn(op) % 2 != 0 {
            Some(Chip8Error::MisalignedJump { opcode: op, pc: s.pc, target: op_nnn(op) })
        } else {
            None
        }
    } else if fam == 0x2000 {
        if op_nnn(op) % 2 != 0 {
            Some(Chip8Error::MisalignedJump { opcode: op, pc: s.pc, target: op_nnn(op) })
        } else if s.stack_pointer >= 16 {
            Some(Chip8Error::StackOverflow { opcode: op, pc: s.pc })
        } else {
            // the pushed return address pc + 2 must itself be a valid
            // program counter
            pc_advance_err(s, 2)
        }
    } else if fam == 0x3000 || fam == 0x4000 {
        pc_advance_err(s, if skip_condition(s) { 4int } else { 2int })
    } else if fam == 0xd000 {
        if op_n(op) > 0 && s.index_counter + op_n(op) > 4096 {
            Some(
                Chip8Error::OutOfBoundsAccess {
                    opcode: op,
                    pc: s.pc,
                    address: (s.index_counter + op_n(op) - 1) as u16,
                },
            )
        } else {
            pc_advance_err(s, 2)
        }
    } else if fam == 0xe000 {
        if s.registers[op_x(op) as int] >= 16 {
            Some(
                Chip8Error::OutOfBoundsAccess {
                    opcode: op,
                    pc: s.pc,
                    address: s.registers[op_x(op) as int] as u16,
                },
            )
        } else {
            pc_advance_err(s, if skip_condition(s) { 4int } else { 2int })
        }
    } else if fam == 0xf000 && op & 0x00ff == 0x33 {
        if s.index_counter + 2 > 4095 {
            Some(
                Chip8Error::OutOfBoundsAccess {
                    opcode: op,
                    pc: s.pc,
                    address: (s.index_counter + 2) as u16,
                },
            )
        } else {
            pc_advance_err(s, 2)
        }
    } else if fam == 0xf000 && op & 0x00ff == 0x65 {
        if s.index_counter + op_x(op) > 4095 {
            Some(
                Chip8Error::OutOfBoundsAccess {
                    opcode: op,
                    pc: s.pc,
                    address: (s.index_counter + op_x(op)) as u16,
                },
            )
        } else {
            pc_advance_err(s, 2)
        }
    } else {
        pc_advance_err(s, 2)
    }
}

/// Subtraction modulo 256.
pub open spec fn byte_sub(a: u8, b: u8) -> u8 {
    ((a - b) % 256) as u8
}

/// `byte_sub` agrees with the standard library's wrapping subtraction.
proof fn lemma_byte_sub_wrapping(a: u8, b: u8)
    ensures
        byte_sub(a, b) == vstd::wrapping::u8_specs::wrapping_sub(a, b),
{
    if a - b < 0 {
        vstd::arithmetic::div_mod::lemma_mod_multiples_vanish(1, a - b, 256);
        vstd::arithmetic::div_mod::lemma_small_mod((a - b + 256) as nat, 256);
    } else {
        vstd::arithmetic::div_mod::lemma_small_mod((a - b) as nat, 256);
    }
}

/// The state after executing the already-fetched opcode of `s`, before the
/// timer tick. `rnd` is the byte the random source returned; only the
/// random-and instruction reads it. Meaningful when `cycle_err(s)` is `None`.
pub open spec fn step_post(s: Chip8View, rnd: u8) -> Chip8View {
    let op = s.opcode;
    let fam = op & 0xf000;
    let x = op_x(op) as int;
    let y = op_y(op) as int;
    let vx = s.registers[x];
    let vy = s.registers[y];
    let pc2 = (s.pc + 2) as u16;
    if fam == 0x0000 {
        if op & 0x00ff == 0xe0 {
            // clear-screen
            Chip8View { gfx: Seq::new(2048, |g: int| 0u8), draw_flag: true, pc: pc2, ..s }
        } else {
            // return: pop the stack into the program counter
            Chip8View {
                stack_pointer: (s.stack_pointer - 1) as usize,
                pc: s.stack[s.stack_pointer - 1],
                ..s
            }
        }
    } else if fam == 0x1000 {
        // jump NNN
        Chip8View { pc: op_nnn(op), ..s }
    } else if fam == 0x2000 {
        // call NNN: push the address of the next instruction
        Chip8View {
            stack: s.stack.update(s.stack_pointer as int, pc2),
            stack_pointer: (s.stack_pointer + 1) as usize,
            pc: op_nnn(op),
            ..s
        }
    } else if fam == 0x3000 || fam == 0x4000 {
        // skip-eq-imm / skip-ne-imm
        Chip8View { pc: if skip_condition(s) { (s.pc + 4) as u16 } else { pc2 }, ..s }
    } else if fam == 0x6000 {
        // load-imm
        Chip8View { registers: s.registers.update(x, op_kk(op)), pc: pc2, ..s }
    } else if fam == 0x7000 {
        // add-imm, modulo 256, no flag
        Chip8View {
            registers: s.registers.update(x, ((vx + op_kk(op)) % 256) as u8),
            pc: pc2,
            ..s
        }
    } else if fam == 0x8000 {
        let sub = op & 0x000f;
        if sub == 0x0 {
            // copy
            Chip8View { registers: s.registers.update(x, vy), pc: pc2, ..s }
        } else if sub == 0x2 {
            // and
            Chip8View { registers: s.registers.update(x, vx & vy), pc: pc2, ..s }
        } else if sub == 0x4 {
            // add-carry: the sum register first, then the flag over it
            Chip8View {
                registers: s.registers.update(x, ((vx + vy) % 256) as u8).update(
                    15,
                    if vx + vy > 255 {
                        1u8
                    } else {
                        0u8
                    },
                ),
                pc: pc2,
                ..s
            }
        } else {
            // sub-flag: the flag is written first and the subtraction reads
            // the registers again, so X or Y being 15 sees the flag value
            let flagged = s.registers.update(
                15,
                if vx > vy {
                    1u8
                } else {
                    0u8
                },
            );
            Chip8View {
                registers: flagged.update(x, byte_sub(flagged[x], flagged[y])),
                pc: pc2,
                ..s
            }
        }
    } else if fam == 0xa000 {
        // load-index
        Chip8View { index_counter: op_nnn(op), pc: pc2, ..s }
    } else if fam == 0xc000 {
        // random-and
        Chip8View { registers: s.registers.update(x, rnd & op_kk(op)), pc: pc2, ..s }
    } else if fam == 0xd000 {
        // draw: XOR-composite N sprite rows read at the index register,
        // with the flag register recording a collision
        let sprite = s.memory.subrange(
            s.index_counter as int,
            s.index_counter + op_n(op),
        );
        Chip8View {
            gfx: draw_gfx(s.gfx, sprite, vx, vy),
            registers: s.registers.update(
                15,
                if draw_collision(s.gfx, sprite, vx, vy) {
                    1u8
                } else {
                    0u8
                },
            ),
            draw_flag: true,
            pc: pc2,
            ..s
        }
    } else if fam == 0xe000 {
        // skip-key-pressed / skip-key-not-pressed
        Chip8View { pc: if skip_condition(s) { (s.pc + 4) as u16 } else { pc2 }, ..s }
    } else {
        let sub = op & 0x00ff;
        if sub == 0x07 {
            // get-delay
            Chip8View { registers: s.registers.update(x, s.delay_timer), pc: pc2, ..s }
        } else if sub == 0x15 {
            // set-delay
            Chip8View { delay_timer: vx, pc: pc2, ..s }
        } else if sub == 0x18 {
            // set-sound
            Chip8View { sound_timer: vx, pc: pc2, ..s }
        } else if sub == 0x29 {
            // font-address: glyphs are 5 bytes each
            Chip8View { index_counter: (vx * 5) as u16, pc: pc2, ..s }
        } else if sub == 0x33 {
            // bcd-store
            let i = s.index_counter as int;
            Chip8View {
                memory: s.memory.update(i, (vx / 100) as u8).update(
                    i + 1,
                    ((vx % 100) / 10) as u8,
                ).update(i + 2, (vx % 10) as u8),
                pc: pc2,
                ..s
            }
        } else {
            // reg-load: registers 0..=X from memory at the index register
            let i = s.index_counter as int;
            Chip8View {
                registers: Seq::new(
                    16,
                    |j: int| if j <= x {
                        s.memory[i + j]
                    } else {
                        s.registers[j]
                    },
                ),
                pc: pc2,
                ..s
            }
        }
    }
}

/// One whole successful cycle: fetch already done, one instruction executed
/// for some byte of the random source, then both timers ticked.
pub open spec fn cycle_rel(s: Chip8View, t: Chip8View) -> bool {
    exists|rnd: u8| t == tick_timers(#[trigger] step_post(s, rnd))
}

/// Executing any known, in-bounds instruction preserves well-formedness: in
/// particular, after it the program counter is again even and in [0, 4094],
/// and so is it after the timer tick that closes the cycle.
pub proof fn lemma_step_post_wf(s: Chip8View, rnd: u8)
    requires
        s.wf(),
        cycle_err(s) is None,
    ensures
        step_post(s, rnd).wf(),
        tick_timers(step_post(s, rnd)).wf(),
{
    lemma_opcode_fields(s.opcode);
    let op = s.opcode;
    let fam = op & 0xf000;
    vstd::arithmetic::div_mod::lemma_mod_multiples_vanish(1, s.pc as int, 2);
    vstd::arithmetic::div_mod::lemma_mod_multiples_vanish(2, s.pc as int, 2);
    if fam == 0x1000 || fam == 0x2000 {
        assert(op_nnn(op) % 2 == 0);
        assert(op_nnn(op) <= 4094);
    }
    if fam == 0xd000 {
        lemma_draw_gfx_wf(
            s.gfx,
            s.memory.subrange(s.index_counter as int, s.index_counter + op_n(op)),
            s.registers[op_x(op) as int],
            s.registers[op_y(op) as int],
        );
    }
    assert(step_post(s, rnd).wf());
}

/// skip-eq-imm and skip-ne-imm advance the program counter by exactly 4 when
/// their condition holds and by exactly 2 otherwise: equality of Vx with the
/// immediate for skip-eq-imm, inequality for skip-ne-imm. Never both.
pub proof fn lemma_skip_pc_advance(s: Chip8View, t: Chip8View)
    requires
        s.wf(),
        cycle_err(s) is None,
        s.opcode & 0xf000 == 0x3000 || s.opcode & 0xf000 == 0x4000,
        cycle_rel(s, t),
    ensures
        skip_condition(s) ==> t.pc == s.pc + 4,
        !skip_condition(s) ==> t.pc == s.pc + 2,
        s.opcode & 0xf000 == 0x3000 ==> (skip_condition(s) <==> s.registers[op_x(s.opcode) as int]
            == op_kk(s.opcode)),
        s.opcode & 0xf000 == 0x4000 ==> (skip_condition(s) <==> s.registers[op_x(s.opcode) as int]
            != op_kk(s.opcode)),
{
    let rnd = choose|rnd: u8| t == tick_timers(#[trigger] step_post(s, rnd));
}

/// add-carry: the result register holds (Vx + Vy) mod 256, and the flag
/// register is 1 exactly when Vx + Vy exceeds 255. When X is 15 the flag
/// write lands on the result register itself and wins, so the result clause
/// speaks of X below 15; the flag clause holds for every X.
pub proof fn lemma_add_carry(s: Chip8View, t: Chip8View)
    requires
        s.wf(),
        cycle_err(s) is None,
        s.opcode & 0xf000 == 0x8000,
        s.opcode & 0x000f == 0x4,
        cycle_rel(s, t),
    ensures
        op_x(s.opcode) != 15 ==> t.registers[op_x(s.opcode) as int] as int == (s.registers[op_x(
            s.opcode,
        ) as int] + s.registers[op_y(s.opcode) as int]) % 256,
        t.registers[15] as int == (if s.registers[op_x(s.opcode) as int] + s.registers[op_y(
            s.opcode,
        ) as int] > 255 {
            1int
        } else {
            0int
        }),
{
    lemma_opcode_fields(s.opcode);
    let rnd = choose|rnd: u8| t == tick_timers(#[trigger] step_post(s, rnd));
}

/// sub-flag: the flag register is 1 exactly when Vx > Vy, a strict
/// greater-than; this is the implemented semantic, not the conventional
/// not-borrow test of Vx >= Vy. The flag is written before the subtraction
/// reads the registers again, so when X is 15 the difference overwrites it:
/// the clauses speak of X below 15. When Y is 15 too, the subtrahend is the
/// freshly written flag rather than the old Vy.
pub proof fn lemma_sub_flag(s: Chip8View, t: Chip8View)
    requires
        s.wf(),
        cycle_err(s) is None,
        s.opcode & 0xf000 == 0x8000,
        s.opcode & 0x000f == 0x5,
        cycle_rel(s, t),
        op_x(s.opcode) != 15,
    ensures
        t.registers[15] as int == (if s.registers[op_x(s.opcode) as int] > s.registers[op_y(
            s.opcode,
        ) as int] {
            1int
        } else {
            0int
        }),
        op_y(s.opcode) != 15 ==> t.registers[op_x(s.opcode) as int] as int == (s.registers[op_x(
            s.opcode,
        ) as int] - s.registers[op_y(s.opcode) as int]) % 256,
{
    lemma_opcode_fields(s.opcode);
    let rnd = choose|rnd: u8| t == tick_timers(#[trigger] step_post(s, rnd));
}

/// random-and: whatever byte the random source returned, the result register
/// has no bit outside KK: Vx & !KK == 0.
pub proof fn lemma_random_and(s: Chip8View, t: Chip8View)
    requires
        s.wf(),
        cycle_err(s) is None,
        s.opcode & 0xf000 == 0xc000,
        cycle_rel(s, t),
    ensures
        t.registers[op_x(s.opcode) as int] & !op_kk(s.opcode) == 0,
{
    lemma_opcode_fields(s.opcode);
    let rnd = choose|rnd: u8| t == tick_timers(#[trigger] step_post(s, rnd));
    let kk = op_kk(s.opcode);
    assert((rnd & kk) & !kk == 0) by (bit_vector);
}

/// bcd-store round-trips: for every Vx, the three digits written at the
/// index register reassemble to exactly it:
/// 100 * mem(i) + 10 * mem(i + 1) + mem(i + 2) == Vx.
pub proof fn lemma_bcd_round_trip(s: Chip8View, t: Chip8View)
    requires
        s.wf(),
        cycle_err(s) is None,
        s.opcode & 0xf000 == 0xf000,
        s.opcode & 0x00ff == 0x33,
        cycle_rel(s, t),
    ensures
        ({
            let i = s.index_counter as int;
            let vx = s.registers[op_x(s.opcode) as int];
            100 * t.memory[i] + 10 * t.memory[i + 1] + t.memory[i + 2] == vx
        }),
{
    lemma_opcode_fields(s.opcode);
    let rnd = choose|rnd: u8| t == tick_timers(#[trigger] step_post(s, rnd));
    let vx = s.registers[op_x(s.opcode) as int];
    assert(100 * (vx / 100) + 10 * ((vx % 100) / 10) + vx % 10 == vx) by (bit_vector);
}

/// Relies on rand::random: a random byte; nothing is promised of its value.
#[verifier::external_body]
fn random_byte() -> u8 {
    rand::random::<u8>()
}

/// The CHIP-8 machine: memory, registers, index, program counter, timers,
/// call stack, the framebuffer it draws into, and the keypad snapshot it
/// reads.
pub struct Chip8 {
    opcode: u16,
    memory: Vec<u8>,
    registers: Vec<u8>,
    index_counter: u16,
    pc: u16,
    delay_timer: u8,
    sound_timer: u8,
    stack: Vec<u16>,
    stack_pointer: usize,
    video: Framebuffer,
    keypad: Keypad,
}

impl View for Chip8 {
    type V = Chip8View;

    closed spec fn view(&self) -> Chip8View {
        Chip8View {
            opcode: self.opcode,
            memory: self.memory@,
            registers: self.registers@,
            index_counter: self.index_counter,
            pc: self.pc,
            delay_timer: self.delay_timer,
            sound_timer: self.sound_timer,
            stack: self.stack@,
            stack_pointer: self.stack_pointer,
            gfx: self.video.grid(),
            draw_flag: self.video.dirty(),
            keypad: self.keypad@,
        }
    }
}

impl Chip8 {
    pub open spec fn wf(&self) -> bool {
        self@.wf()
    }

    /// Helper: the concrete framebuffer is well-formed whenever the view is.
    proof fn lemma_video_wf(&self)
        requires
            self.wf(),
        ensures
            self.video.wf(),
    {
        assert(self.video.grid() == self@.gfx);
    }

    /// Register index X of the fetched opcode.
    fn get_x(&self) -> (x: usize)
        ensures
            x == op_x(self@.opcode) as usize,
            x < 16,
    {
        proof {
            lemma_opcode_fields(self.opcode);
        }
        ((self.opcode & 0x0f00) >> 8) as usize
    }

    /// Register index Y of the fetched opcode.
    fn get_y(&self) -> (y: usize)
        ensures
            y == op_y(self@.opcode) as usize,
            y < 16,
    {
        proof {
            lemma_opcode_fields(self.opcode);
        }
        ((self.opcode & 0x00f0) >> 4) as usize
    }

    /// Nibble N of the fetched opcode.
    fn get_n(&self) -> (n: usize)
        ensures
            n == op_n(self@.opcode) as usize,
            n < 16,
    {
        proof {
            lemma_opcode_fields(self.opcode);
        }
        (self.opcode & 0x000f) as usize
    }

    /// Byte immediate KK of the fetched opcode.
    fn get_kk(&self) -> (kk: u8)
        ensures
            kk == op_kk(self@.opcode),
    {
        proof {
            lemma_opcode_fields(self.opcode);
        }
        (self.opcode & 0x00ff) as u8
    }

    /// Address NNN of the fetched opcode.
    fn get_nnn(&self) -> (nnn: u16)
        ensures
            nnn == op_nnn(self@.opcode),
            nnn < 4096,
    {
        proof {
            lemma_opcode_fields(self.opcode);
        }
        self.opcode & 0x0fff
    }

    /// Family 0: clear-screen or return, selected by the low byte.
    fn handle_0xxx(&mut self) -> (result: Result<(), Chip8Error>)
        requires
            old(self).wf(),
            old(self)@.opcode & 0xf000 == 0x0000,
        ensures
            match result {
                Ok(()) => cycle_err(old(self)@) is None && (exists|rnd: u8|
                    final(self)@ == #[trigger] step_post(old(self)@, rnd)),
                Err(e) => cycle_err(old(self)@) == Some(e) && final(self)@ == old(self)@,
            },
    {
        let sub = self.opcode & 0x00ff;
        if sub == 0xe0 {
            self.handle_00e0()
        } else if sub == 0xee {
            self.handle_00ee()
        } else {
            Err(Chip8Error::UnknownOpcode { opcode: self.opcode, pc: self.pc })
        }
    }

    /// clear-screen: zero the framebuffer and mark it dirty.
    fn handle_00e0(&mut self) -> (result: Result<(), Chip8Error>)
        requires
            old(self).wf(),
            old(self)@.opcode & 0xf000 == 0x0000,
            old(self)@.opcode & 0x00ff == 0xe0,
        ensures
            match result {
                Ok(()) => cycle_err(old(self)@) is None && (exists|rnd: u8|
                    final(self)@ == #[trigger] step_post(old(self)@, rnd)),
                Err(e) => cycle_err(old(self)@) == Some(e) && final(self)@ == old(self)@,
            },
    {
        if self.pc + 2 > 4094 {
            return Err(
                Chip8Error::OutOfBoundsAccess {
                    opcode: self.opcode,
                    pc: self.pc,
                    address: self.pc + 2,
                },
            );
        }
        self.video.reinitialize_screen();
        self.pc = self.pc + 2;
        proof {
            assert(self@.gfx =~= Seq::new(2048, |g: int| 0u8));
            assert(self@ =~= step_post(old(self)@, 0u8));
        }
        Ok(())
    }

    /// return: pop the stack into the program counter.
    fn handle_00ee(&mut self) -> (result: Result<(), Chip8Error>)
        requires
            old(self).wf(),
            old(self)@.opcode & 0xf000 == 0x0000,
            old(self)@.opcode & 0x00ff == 0xee,
        ensures
            match result {
                Ok(()) => cycle_err(old(self)@) is None && (exists|rnd: u8|
                    final(self)@ == #[trigger] step_post(old(self)@, rnd)),
                Err(e) => cycle_err(old(self)@) == Some(e) && final(self)@ == old(self)@,
            },
    {
        if self.stack_pointer == 0 {
            return Err(Chip8Error::StackUnderflow { opcode: self.opcode, pc: self.pc });
        }
        self.stack_pointer = self.stack_pointer - 1;
        self.pc = self.stack[self.stack_pointer];
        proof {
            assert(self@ =~= step_post(old(self)@, 0u8));
        }
        Ok(())
    }

    /// jump NNN.
    fn handle_1xxx(&mut self) -> (result: Result<(), Chip8Error>)
        requires
            old(self).wf(),
            old(self)@.opcode & 0xf000 == 0x1000,
        ensures
            match result {
                Ok(()) => cycle_err(old(self)@) is None && (exists|rnd: u8|
                    final(self)@ == #[trigger] step_post(old(self)@, rnd)),
                Err(e) => cycle_err(old(self)@) == Some(e) && final(self)@ == old(self)@,
            },
    {
        let nnn = self.get_nnn();
        if nnn % 2 != 0 {
            return Err(
                Chip8Error::MisalignedJump { opcode: self.opcode, pc: self.pc, target: nnn },
            );
        }
        self.pc = nnn;
        proof {
            assert(self@ =~= step_post(old(self)@, 0u8));
        }
        Ok(())
    }

    /// call NNN: push the address of the next instruction, then jump.
    fn handle_2xxx(&mut self) -> (result: Result<(), Chip8Error>)
        requires
            old(self).wf(),
            old(self)@.opcode & 0xf000 == 0x2000,
        ensures
            match result {
                Ok(()) => cycle_err(old(self)@) is None && (exists|rnd: u8|
                    final(self)@ == #[trigger] step_post(old(self)@, rnd)),
                Err(e) => cycle_err(old(self)@) == Some(e) && final(self)@ == old(self)@,
            },
    {
        let nnn = self.get_nnn();
        if nnn % 2 != 0 {
            return Err(
                Chip8Error::MisalignedJump { opcode: self.opcode, pc: self.pc, target: nnn },
            );
        }
        if self.stack_pointer >= STACK_SIZE {
            return Err(Chip8Error::StackOverflow { opcode: self.opcode, pc: self.pc });
        }
        if self.pc + 2 > 4094 {
            return Err(
                Chip8Error::OutOfBoundsAccess {
                    opcode: self.opcode,
                    pc: self.pc,
                    address: self.pc + 2,
                },
            );
        }
        self.stack[self.stack_pointer] = self.pc + 2;
        self.stack_pointer = self.stack_pointer + 1;
        self.pc = nnn;
        proof {
            assert(self@ =~= step_post(old(self)@, 0u8));
        }
        Ok(())
    }

    /// skip-eq-imm: skip the next instruction when Vx equals KK.
    fn handle_3xxx(&mut self) -> (result: Result<(), Chip8Error>)
        requires
            old(self).wf(),
            old(self)@.opcode & 0xf000 == 0x3000,
        ensures
            match result {
                Ok(()) => cycle_err(old(self)@) is None && (exists|rnd: u8|
                    final(self)@ == #[trigger] step_post(old(self)@, rnd)),
                Err(e) => cycle_err(old(self)@) == Some(e) && final(self)@ == old(self)@,
            },
    {
        let x = self.get_x();
        let kk = self.get_kk();
        let target = if self.registers[x] == kk {
            self.pc + 4
        } else {
            self.pc + 2
        };
        if target > 4094 {
            return Err(
                Chip8Error::OutOfBoundsAccess { opcode: self.opcode, pc: self.pc, address: target },
            );
        }
        self.pc = target;
        proof {
            assert(self@ =~= step_post(old(self)@, 0u8));
        }
        Ok(())
    }

    /// skip-ne-imm: skip the next instruction when Vx differs from KK.
    fn handle_4xxx(&mut self) -> (result: Result<(), Chip8Error>)
        requires
            old(self).wf(),
            old(self)@.opcode & 0xf000 == 0x4000,
        ensures
            match result {
                Ok(()) => cycle_err(old(self)@) is None && (exists|rnd: u8|
                    final(self)@ == #[trigger] step_post(old(self)@, rnd)),
                Err(e) => cycle_err(old(self)@) == Some(e) && final(self)@ == old(self)@,
            },
    {
        let x = self.get_x();
        let kk = self.get_kk();
        let target = if self.registers[x] != kk {
            self.pc + 4
        } else {
            self.pc + 2
        };
        if target > 4094 {
            return Err(
                Chip8Error::OutOfBoundsAccess { opcode: self.opcode, pc: self.pc, address: target },
            );
        }
        self.pc = target;
        proof {
            assert(self@ =~= step_post(old(self)@, 0u8));
        }
        Ok(())
    }

    /// load-imm: Vx := KK.
    fn handle_6xxx(&mut self) -> (result: Result<(), Chip8Error>)
        requires
            old(self).wf(),
            old(self)@.opcode & 0xf000 == 0x6000,
        ensures
            match result {
                Ok(()) => cycle_err(old(self)@) is None && (exists|rnd: u8|
                    final(self)@ == #[trigger] step_post(old(self)@, rnd)),
                Err(e) => cycle_err(old(self)@) == Some(e) && final(self)@ == old(self)@,
            },
    {
        if self.pc + 2 > 4094 {
            return Err(
                Chip8Error::OutOfBoundsAccess {
                    opcode: self.opcode,
                    pc: self.pc,
                    address: self.pc + 2,
                },
            );
        }
        let x = self.get_x();
        let kk = self.get_kk();
        self.registers[x] = kk;
        self.pc = self.pc + 2;
        proof {
            assert(self@ =~= step_post(old(self)@, 0u8));
        }
        Ok(())
    }

    /// add-imm: Vx := (Vx + KK) mod 256; the flag register is untouched.
    fn handle_7xxx(&mut self) -> (result: Result<(), Chip8Error>)
        requires
            old(self).wf(),
            old(self)@.opcode & 0xf000 == 0x7000,
        ensures
            match result {
                Ok(()) => cycle_err(old(self)@) is None && (exists|rnd: u8|
                    final(self)@ == #[trigger] step_post(old(self)@, rnd)),
                Err(e) => cycle_err(old(self)@) == Some(e) && final(self)@ == old(self)@,
            },
    {
        if self.pc + 2 > 4094 {
            return Err(
                Chip8Error::OutOfBoundsAccess {
                    opcode: self.opcode,
                    pc: self.pc,
                    address: self.pc + 2,
                },
            );
        }
        let x = self.get_x();
        let vx = self.registers[x] as u16;
        let kk = self.get_kk() as u16;
        self.registers[x] = ((vx + kk) % 256) as u8;
        self.pc = self.pc + 2;
        proof {
            assert(self@ =~= step_post(old(self)@, 0u8));
        }
        Ok(())
    }

    /// Family 8: register-to-register operations, selected by the low nibble.
    fn handle_8xxx(&mut self) -> (result: Result<(), Chip8Error>)
        requires
            old(self).wf(),
            old(self)@.opcode & 0xf000 == 0x8000,
        ensures
            match result {
                Ok(()) => cycle_err(old(self)@) is None && (exists|rnd: u8|
                    final(self)@ == #[trigger] step_post(old(self)@, rnd)),
                Err(e) => cycle_err(old(self)@) == Some(e) && final(self)@ == old(self)@,
            },
    {
        let sub = self.opcode & 0x000f;
        if sub == 0x0 {
            self.handle_8xx0()
        } else if sub == 0x2 {
            self.handle_8xx2()
        } else if sub == 0x4 {
            self.handle_8xx4()
        } else if sub == 0x5 {
            self.handle_8xx5()
        } else {
            Err(Chip8Error::UnknownOpcode { opcode: self.opcode, pc: self.pc })
        }
    }

    /// copy: Vx := Vy.
    fn handle_8xx0(&mut self) -> (result: Result<(), Chip8Error>)
        requires
            old(self).wf(),
            old(self)@.opcode & 0xf000 == 0x8000,
            old(self)@.opcode & 0x000f == 0x0,
        ensures
            match result {
                Ok(()) => cycle_err(old(self)@) is None && (exists|rnd: u8|
                    final(self)@ == #[trigger] step_post(old(self)@, rnd)),
                Err(e) => cycle_err(old(self)@) == Some(e) && final(self)@ == old(self)@,
            },
    {
        if self.pc + 2 > 4094 {
            return Err(
                Chip8Error::OutOfBoundsAccess {
                    opcode: self.opcode,
                    pc: self.pc,
                    address: self.pc + 2,
                },
            );
        }
        let x = self.get_x();
        let y = self.get_y();
        self.registers[x] = self.registers[y];
        self.pc = self.pc + 2;
        proof {
            assert(self@ =~= step_post(old(self)@, 0u8));
        }
        Ok(())
    }

    /// and: Vx := Vx & Vy.
    fn handle_8xx2(&mut self) -> (result: Result<(), Chip8Error>)
        requires
            old(self).wf(),
            old(self)@.opcode & 0xf000 == 0x8000,
            old(self)@.opcode & 0x000f == 0x2,
        ensures
            match result {
                Ok(()) => cycle_err(old(self)@) is None && (exists|rnd: u8|
                    final(self)@ == #[trigger] step_post(old(self)@, rnd)),
                Err(e) => cycle_err(old(self)@) == Some(e) && final(self)@ == old(self)@,
            },
    {
        if self.pc + 2 > 4094 {
            return Err(
                Chip8Error::OutOfBoundsAccess {
                    opcode: self.opcode,
                    pc: self.pc,
                    address: self.pc + 2,
                },
            );
        }
        let x = self.get_x();
        let y = self.get_y();
        self.registers[x] = self.registers[x] & self.registers[y];
        self.pc = self.pc + 2;
        proof {
            assert(self@ =~= step_post(old(self)@, 0u8));
        }
        Ok(())
    }

    /// add-carry: Vx := (Vx + Vy) mod 256; the flag register becomes 1
    /// exactly when Vx + Vy exceeds 255.
    fn handle_8xx4(&mut self) -> (result: Result<(), Chip8Error>)
        requires
            old(self).wf(),
            old(self)@.opcode & 0xf000 == 0x8000,
            old(self)@.opcode & 0x000f == 0x4,
        ensures
            match result {
                Ok(()) => cycle_err(old(self)@) is None && (exists|rnd: u8|
                    final(self)@ == #[trigger] step_post(old(self)@, rnd)),
                Err(e) => cycle_err(old(self)@) == Some(e) && final(self)@ == old(self)@,
            },
    {
        if self.pc + 2 > 4094 {
            return Err(
                Chip8Error::OutOfBoundsAccess {
                    opcode: self.opcode,
                    pc: self.pc,
                    address: self.pc + 2,
                },
            );
        }
        let x = self.get_x();
        let y = self.get_y();
        let sum = (self.registers[x] as u16) + (self.registers[y] as u16);
        self.registers[x] = (sum % 256) as u8;
        self.registers[0xf] = if sum > 0xff {
            1
        } else {
            0
        };
        self.pc = self.pc + 2;
        proof {
            assert(self@ =~= step_post(old(self)@, 0u8));
        }
        Ok(())
    }

    /// sub-flag: the flag register becomes 1 exactly when Vx > Vy (strict),
    /// then Vx := (Vx - Vy) mod 256 over the already-flagged registers.
    fn handle_8xx5(&mut self) -> (result: Result<(), Chip8Error>)
        requires
            old(self).wf(),
            old(self)@.opcode & 0xf000 == 0x8000,
            old(self)@.opcode & 0x000f == 0x5,
        ensures
            match result {
                Ok(()) => cycle_err(old(self)@) is None && (exists|rnd: u8|
                    final(self)@ == #[trigger] step_post(old(self)@, rnd)),
                Err(e) => cycle_err(old(self)@) == Some(e) && final(self)@ == old(self)@,
            },
    {
        if self.pc + 2 > 4094 {
            return Err(
                Chip8Error::OutOfBoundsAccess {
                    opcode: self.opcode,
                    pc: self.pc,
                    address: self.pc + 2,
                },
            );
        }
        let x = self.get_x();
        let y = self.get_y();
        self.registers[0xf] = if self.registers[x] > self.registers[y] {
            1
        } else {
            0
        };
        let vx = self.registers[x];
        let vy = self.registers[y];
        self.registers[x] = vx.wrapping_sub(vy);
        self.pc = self.pc + 2;
        proof {
            lemma_byte_sub_wrapping(vx, vy);
            assert(self@ =~= step_post(old(self)@, 0u8));
        }
        Ok(())
    }

    /// load-index: index := NNN.
    fn handle_axxx(&mut self) -> (result: Result<(), Chip8Error>)
        requires
            old(self).wf(),
            old(self)@.opcode & 0xf000 == 0xa000,
        ensures
            match result {
                Ok(()) => cycle_err(old(self)@) is None && (exists|rnd: u8|
                    final(self)@ == #[trigger] step_post(old(self)@, rnd)),
                Err(e) => cycle_err(old(self)@) == Some(e) && final(self)@ == old(self)@,
            },
    {
        if self.pc + 2 > 4094 {
            return Err(
                Chip8Error::OutOfBoundsAccess {
                    opcode: self.opcode,
                    pc: self.pc,
                    address: self.pc + 2,
                },
            );
        }
        self.index_counter = self.get_nnn();
        self.pc = self.pc + 2;
        proof {
            assert(self@ =~= step_post(old(self)@, 0u8));
        }
        Ok(())
    }

    /// random-and: Vx := (random byte) & KK.
    fn handle_cxxx(&mut self) -> (result: Result<(), Chip8Error>)
        requires
            old(self).wf(),
            old(self)@.opcode & 0xf000 == 0xc000,
        ensures
            match result {
                Ok(()) => cycle_err(old(self)@) is None && (exists|rnd: u8|
                    final(self)@ == #[trigger] step_post(old(self)@, rnd)),
                Err(e) => cycle_err(old(self)@) == Some(e) && final(self)@ == old(self)@,
            },
    {
        if self.pc + 2 > 4094 {
            return Err(
                Chip8Error::OutOfBoundsAccess {
                    opcode: self.opcode,
                    pc: self.pc,
                    address: self.pc + 2,
                },
            );
        }
        let randomized_value = random_byte();
        let x = self.get_x();
        let kk = self.get_kk();
        self.registers[x] = randomized_value & kk;
        self.pc = self.pc + 2;
        proof {
            assert(self@ =~= step_post(old(self)@, randomized_value));
        }
        Ok(())
    }

    /// draw: XOR-composite N sprite rows, read at the index register, onto
    /// the toroidal grid at (Vx, Vy); the flag register records whether any
    /// set sprite bit erased a lit pixel.
    fn handle_dxxx(&mut self) -> (result: Result<(), Chip8Error>)
        requires
            old(self).wf(),
            old(self)@.opcode & 0xf000 == 0xd000,
        ensures
            match result {
                Ok(()) => cycle_err(old(self)@) is None && (exists|rnd: u8|
                    final(self)@ == #[trigger] step_post(old(self)@, rnd)),
                Err(e) => cycle_err(old(self)@) == Some(e) && final(self)@ == old(self)@,
            },
    {
        let n = self.get_n();
        let i = self.index_counter as usize;
        if n > 0 && i + n > 4096 {
            return Err(
                Chip8Error::OutOfBoundsAccess {
                    opcode: self.opcode,
                    pc: self.pc,
                    address: self.index_counter + (n as u16) - 1,
                },
            );
        }
        if self.pc + 2 > 4094 {
            return Err(
                Chip8Error::OutOfBoundsAccess {
                    opcode: self.opcode,
                    pc: self.pc,
                    address: self.pc + 2,
                },
            );
        }
        let x = self.get_x();
        let y = self.get_y();
        let vx = self.registers[x];
        let vy = self.registers[y];
        let ghost gfx0 = self@.gfx;
        let ghost sprite = self@.memory.subrange(i as int, i as int + n as int);
        proof {
            self.lemma_video_wf();
            lemma_prefix_empty(gfx0, sprite, vx, vy);
        }
        self.registers[0xf] = 0;
        let mut b: usize = 0;
        while b < n
            invariant
                old(self).wf(),
                n == op_n(old(self)@.opcode) as usize,
                n <= 15,
                x == op_x(old(self)@.opcode) as usize,
                y == op_y(old(self)@.opcode) as usize,
                vx == old(self)@.registers[x as int],
                vy == old(self)@.registers[y as int],
                i == old(self)@.index_counter as usize,
                n > 0 ==> i + n <= 4096,
                gfx0 == old(self)@.gfx,
                sprite == old(self)@.memory.subrange(i as int, i as int + n as int),
                sprite.len() == n,
                b <= n,
                self.video.wf(),
                self.registers@.len() == 16,
                self@ == (Chip8View {
                    registers: self.registers@,
                    gfx: self.video.grid(),
                    ..old(self)@
                }),
                self.registers@ == old(self)@.registers.update(
                    15,
                    if collision_prefix(gfx0, sprite, vx, vy, b as int, 0) {
                        1u8
                    } else {
                        0u8
                    },
                ),
                self.video.grid() == draw_prefix(gfx0, sprite, vx, vy, b as int, 0),
            decreases n - b,
        {
            let row = self.memory[i + b];
            let py = (vy as usize + b) % 32;
            let mut c: usize = 0;
            while c < 8
                invariant
                    old(self).wf(),
                    n == op_n(old(self)@.opcode) as usize,
                    n <= 15,
                    x == op_x(old(self)@.opcode) as usize,
                    y == op_y(old(self)@.opcode) as usize,
                    vx == old(self)@.registers[x as int],
                    vy == old(self)@.registers[y as int],
                    i == old(self)@.index_counter as usize,
                    i + n <= 4096,
                    gfx0 == old(self)@.gfx,
                    sprite == old(self)@.memory.subrange(i as int, i as int + n as int),
                    sprite.len() == n,
                    b < n,
                    c <= 8,
                    row == sprite[b as int],
                    py == (vy as usize + b) % 32,
                    self.video.wf(),
                    self.registers@.len() == 16,
                    self@ == (Chip8View {
                        registers: self.registers@,
                        gfx: self.video.grid(),
                        ..old(self)@
                    }),
                    self.registers@ == old(self)@.registers.update(
                        15,
                        if collision_prefix(gfx0, sprite, vx, vy, b as int, c as int) {
                            1u8
                        } else {
                            0u8
                        },
                    ),
                    self.video.grid() == draw_prefix(gfx0, sprite, vx, vy, b as int, c as int),
                decreases 8 - c,
            {
                let px = (vx as usize + c) % 64;
                let color = (row >> ((7 - c) as u8)) & 1;
                proof {
                    lemma_bit_le_one(row, (7 - c) as u8);
                    lemma_draw_prefix_step(gfx0, sprite, vx, vy, b as int, c as int);
                    lemma_collision_prefix_step(gfx0, sprite, vx, vy, b as int, c as int);
                }
                let pixel = self.video.pixel_state(py, px);
                if color == 1 && pixel == 1 {
                    self.registers[0xf] = 1;
                }
                self.video.toggle_pixel_state(py, px, color);
                c += 1;
                proof {
                    assert(self.video.grid() =~= draw_prefix(
                        gfx0,
                        sprite,
                        vx,
                        vy,
                        b as int,
                        c as int,
                    ));
                    assert(self.registers@ =~= old(self)@.registers.update(
                        15,
                        if collision_prefix(gfx0, sprite, vx, vy, b as int, c as int) {
                            1u8
                        } else {
                            0u8
                        },
                    ));
                }
            }
            b += 1;
            proof {
                lemma_prefix_row(gfx0, sprite, vx, vy, b as int - 1);
            }
        }
        proof {
            lemma_prefix_complete(gfx0, sprite, vx, vy);
        }
        self.video.set_draw_flag(true);
        self.pc = self.pc + 2;
        proof {
            assert(self@ =~= step_post(old(self)@, 0u8));
        }
        Ok(())
    }

    /// Family E: key skips, selected by the low byte.
    fn handle_exxx(&mut self) -> (result: Result<(), Chip8Error>)
        requires
            old(self).wf(),
            old(self)@.opcode & 0xf000 == 0xe000,
        ensures
            match result {
                Ok(()) => cycle_err(old(self)@) is None && (exists|rnd: u8|
                    final(self)@ == #[trigger] step_post(old(self)@, rnd)),
                Err(e) => cycle_err(old(self)@) == Some(e) && final(self)@ == old(self)@,
            },
    {
        let sub = self.opcode & 0x00ff;
        if sub == 0x9e {
            self.handle_ex9e()
        } else if sub == 0xa1 {
            self.handle_exa1()
        } else {
            Err(Chip8Error::UnknownOpcode { opcode: self.opcode, pc: self.pc })
        }
    }

    /// skip-key-pressed: skip the next instruction when the key numbered by
    /// Vx is held down; Vx above 15 is out of the keypad's bounds.
    fn handle_ex9e(&mut self) -> (result: Result<(), Chip8Error>)
        requires
            old(self).wf(),
            old(self)@.opcode & 0xf000 == 0xe000,
            old(self)@.opcode & 0x00ff == 0x9e,
        ensures
            match result {
                Ok(()) => cycle_err(old(self)@) is None && (exists|rnd: u8|
                    final(self)@ == #[trigger] step_post(old(self)@, rnd)),
                Err(e) => cycle_err(old(self)@) == Some(e) && final(self)@ == old(self)@,
            },
    {
        let x = self.get_x();
        let key = self.registers[x];
        if key >= 16 {
            return Err(
                Chip8Error::OutOfBoundsAccess {
                    opcode: self.opcode,
                    pc: self.pc,
                    address: key as u16,
                },
            );
        }
        let target = if self.keypad.is_pressed(key as usize) {
            self.pc + 4
        } else {
            self.pc + 2
        };
        if target > 4094 {
            return Err(
                Chip8Error::OutOfBoundsAccess { opcode: self.opcode, pc: self.pc, address: target },
            );
        }
        self.pc = target;
        proof {
            assert(self@ =~= step_post(old(self)@, 0u8));
        }
        Ok(())
    }

    /// skip-key-not-pressed: skip the next instruction when the key numbered
    /// by Vx is not held down; Vx above 15 is out of the keypad's bounds.
    fn handle_exa1(&mut self) -> (result: Result<(), Chip8Error>)
        requires
            old(self).wf(),
            old(self)@.opcode & 0xf000 == 0xe000,
            old(self)@.opcode & 0x00ff == 0xa1,
        ensures
            match result {
                Ok(()) => cycle_err(old(self)@) is None && (exists|rnd: u8|
                    final(self)@ == #[trigger] step_post(old(self)@, rnd)),
                Err(e) => cycle_err(old(self)@) == Some(e) && final(self)@ == old(self)@,
            },
    {
        let x = self.get_x();
        let key = self.registers[x];
        if key >= 16 {
            return Err(
                Chip8Error::OutOfBoundsAccess {
                    opcode: self.opcode,
                    pc: self.pc,
                    address: key as u16,
                },
            );
        }
        let target = if !self.keypad.is_pressed(key as usize) {
            self.pc + 4
        } else {
            self.pc + 2
        };
        if target > 4094 {
            return Err(
                Chip8Error::OutOfBoundsAccess { opcode: self.opcode, pc: self.pc, address: target },
            );
        }
        self.pc = target;
        proof {
            assert(self@ =~= step_post(old(self)@, 0u8));
        }
        Ok(())
    }

    /// Family F: timer, font, BCD and register-block operations, selected by
    /// the low byte.
    fn handle_fxxx(&mut self) -> (result: Result<(), Chip8Error>)
        requires
            old(self).wf(),
            old(self)@.opcode & 0xf000 == 0xf000,
        ensures
            match result {
                Ok(()) => cycle_err(old(self)@) is None && (exists|rnd: u8|
                    final(self)@ == #[trigger] step_post(old(self)@, rnd)),
                Err(e) => cycle_err(old(self)@) == Some(e) && final(self)@ == old(self)@,
            },
    {
        let sub = self.opcode & 0x00ff;
        if sub == 0x07 {
            self.handle_fx07()
        } else if sub == 0x15 {
            self.handle_fx15()
        } else if sub == 0x18 {
            self.handle_fx18()
        } else if sub == 0x29 {
            self.handle_fx29()
        } else if sub == 0x33 {
            self.handle_fx33()
        } else if sub == 0x65 {
            self.handle_fx65()
        } else {
            Err(Chip8Error::UnknownOpcode { opcode: self.opcode, pc: self.pc })
        }
    }

    /// get-delay: Vx := delay timer.
    fn handle_fx07(&mut self) -> (result: Result<(), Chip8Error>)
        requires
            old(self).wf(),
            old(self)@.opcode & 0xf000 == 0xf000,
            old(self)@.opcode & 0x00ff == 0x07,
        ensures
            match result {
                Ok(()) => cycle_err(old(self)@) is None && (exists|rnd: u8|
                    final(self)@ == #[trigger] step_post(old(self)@, rnd)),
                Err(e) => cycle_err(old(self)@) == Some(e) && final(self)@ == old(self)@,
            },
    {
        if self.pc + 2 > 4094 {
            return Err(
                Chip8Error::OutOfBoundsAccess {
                    opcode: self.opcode,
                    pc: self.pc,
                    address: self.pc + 2,
                },
            );
        }
        let x = self.get_x();
        self.registers[x] = self.delay_timer;
        self.pc = self.pc + 2;
        proof {
            assert(self@ =~= step_post(old(self)@, 0u8));
        }
        Ok(())
    }

    /// set-delay: delay timer := Vx.
    fn handle_fx15(&mut self) -> (result: Result<(), Chip8Error>)
        requires
            old(self).wf(),
            old(self)@.opcode & 0xf000 == 0xf000,
            old(self)@.opcode & 0x00ff == 0x15,
        ensures
            match result {
                Ok(()) => cycle_err(old(self)@) is None && (exists|rnd: u8|
                    final(self)@ == #[trigger] step_post(old(self)@, rnd)),
                Err(e) => cycle_err(old(self)@) == Some(e) && final(self)@ == old(self)@,
            },
    {
        if self.pc + 2 > 4094 {
            return Err(
                Chip8Error::OutOfBoundsAccess {
                    opcode: self.opcode,
                    pc: self.pc,
                    address: self.pc + 2,
                },
            );
        }
        let x = self.get_x();
        self.delay_timer = self.registers[x];
        self.pc = self.pc + 2;
        proof {
            assert(self@ =~= step_post(old(self)@, 0u8));
        }
        Ok(())
    }

    /// set-sound: sound timer := Vx.
    fn handle_fx18(&mut self) -> (result: Result<(), Chip8Error>)
        requires
            old(self).wf(),
            old(self)@.opcode & 0xf000 == 0xf000,
            old(self)@.opcode & 0x00ff == 0x18,
        ensures
            match result {
                Ok(()) => cycle_err(old(self)@) is None && (exists|rnd: u8|
                    final(self)@ == #[trigger] step_post(old(self)@, rnd)),
                Err(e) => cycle_err(old(self)@) == Some(e) && final(self)@ == old(self)@,
            },
    {
        if self.pc + 2 > 4094 {
            return Err(
                Chip8Error::OutOfBoundsAccess {
                    opcode: self.opcode,
                    pc: self.pc,
                    address: self.pc + 2,
                },
            );
        }
        let x = self.get_x();
        self.sound_timer = self.registers[x];
        self.pc = self.pc + 2;
        proof {
            assert(self@ =~= step_post(old(self)@, 0u8));
        }
        Ok(())
    }

    /// font-address: index := Vx * 5, the base of glyph Vx in the font table.
    fn handle_fx29(&mut self) -> (result: Result<(), Chip8Error>)
        requires
            old(self).wf(),
            old(self)@.opcode & 0xf000 == 0xf000,
            old(self)@.opcode & 0x00ff == 0x29,
        ensures
            match result {
                Ok(()) => cycle_err(old(self)@) is None && (exists|rnd: u8|
                    final(self)@ == #[trigger] step_post(old(self)@, rnd)),
                Err(e) => cycle_err(old(self)@) == Some(e) && final(self)@ == old(self)@,
            },
    {
        if self.pc + 2 > 4094 {
            return Err(
                Chip8Error::OutOfBoundsAccess {
                    opcode: self.opcode,
                    pc: self.pc,
                    address: self.pc + 2,
                },
            );
        }
        let x = self.get_x();
        self.index_counter = (self.registers[x] as u16) * 5;
        self.pc = self.pc + 2;
        proof {
            assert(self@ =~= step_post(old(self)@, 0u8));
        }
        Ok(())
    }

    /// bcd-store: the three decimal digits of Vx into memory at the index
    /// register: hundreds, then tens, then ones.
    fn handle_fx33(&mut self) -> (result: Result<(), Chip8Error>)
        requires
            old(self).wf(),
            old(self)@.opcode & 0xf000 == 0xf000,
            old(self)@.opcode & 0x00ff == 0x33,
        ensures
            match result {
                Ok(()) => cycle_err(old(self)@) is None && (exists|rnd: u8|
                    final(self)@ == #[trigger] step_post(old(self)@, rnd)),
                Err(e) => cycle_err(old(self)@) == Some(e) && final(self)@ == old(self)@,
            },
    {
        let i = self.index_counter as usize;
        if i + 2 > 4095 {
            return Err(
                Chip8Error::OutOfBoundsAccess {
                    opcode: self.opcode,
                    pc: self.pc,
                    address: self.index_counter + 2,
                },
            );
        }
        if self.pc + 2 > 4094 {
            return Err(
                Chip8Error::OutOfBoundsAccess {
                    opcode: self.opcode,
                    pc: self.pc,
                    address: self.pc + 2,
                },
            );
        }
        let x = self.get_x();
        let vx = self.registers[x];
        self.memory[i] = vx / 100;
        self.memory[i + 1] = (vx % 100) / 10;
        self.memory[i + 2] = vx % 10;
        self.pc = self.pc + 2;
        proof {
            assert(self@ =~= step_post(old(self)@, 0u8));
        }
        Ok(())
    }

    /// reg-load: registers 0..=X from memory starting at the index register.
    fn handle_fx65(&mut self) -> (result: Result<(), Chip8Error>)
        requires
            old(self).wf(),
            old(self)@.opcode & 0xf000 == 0xf000,
            old(self)@.opcode & 0x00ff == 0x65,
        ensures
            match result {
                Ok(()) => cycle_err(old(self)@) is None && (exists|rnd: u8|
                    final(self)@ == #[trigger] step_post(old(self)@, rnd)),
                Err(e) => cycle_err(old(self)@) == Some(e) && final(self)@ == old(self)@,
            },
    {
        let x = self.get_x();
        let i = self.index_counter as usize;
        if i + x > 4095 {
            return Err(
                Chip8Error::OutOfBoundsAccess {
                    opcode: self.opcode,
                    pc: self.pc,
                    address: self.index_counter + (x as u16),
                },
            );
        }
        if self.pc + 2 > 4094 {
            return Err(
                Chip8Error::OutOfBoundsAccess {
                    opcode: self.opcode,
                    pc: self.pc,
                    address: self.pc + 2,
                },
            );
        }
        let mut j: usize = 0;
        while j < x + 1
            invariant
                old(self).wf(),
                x < 16,
                x == op_x(old(self)@.opcode) as usize,
                i == old(self)@.index_counter as usize,
                i + x <= 4095,
                j <= x + 1,
                self.registers@.len() == 16,
                self@ == (Chip8View { registers: self.registers@, ..old(self)@ }),
                forall|k: int| 0 <= k < j ==> self.registers@[k] == old(self)@.memory[i + k],
                forall|k: int| j <= k < 16 ==> self.registers@[k] == old(self)@.registers[k],
            decreases x + 1 - j,
        {
            self.registers[j] = self.memory[i + j];
            j += 1;
        }
        self.pc = self.pc + 2;
        proof {
            assert(self.registers@ =~= Seq::new(
                16,
                |k: int| if k <= op_x(old(self)@.opcode) as int {
                    old(self)@.memory[old(self)@.index_counter + k]
                } else {
                    old(self)@.registers[k]
                },
            ));
            assert(self@ =~= step_post(old(self)@, 0u8));
        }
        Ok(())
    }

    /// One full cycle: fetch the opcode word at the program counter, decode
    /// and execute its instruction, then tick both timers down. On a fatal
    /// error the machine stops as it was at the fetch, and the error carries
    /// the opcode and program counter for diagnosis. Presenting the
    /// framebuffer is the caller's step: it presents whenever `draw_flag`
    /// reports the screen dirty, and clears the flag.
    pub fn emulate_cycle(&mut self) -> (result: Result<(), Chip8Error>)
        requires
            old(self).wf(),
        ensures
            final(self).wf(),
            ({
                let s = fetched(old(self)@);
                match result {
                    Ok(()) => {
                        &&& cycle_err(s) is None
                        &&& cycle_rel(s, final(self)@)
                        &&& final(self)@.pc % 2 == 0
                        &&& final(self)@.pc <= 4094
                    },
                    Err(e) => cycle_err(s) == Some(e) && final(self)@ == s,
                }
            }),
    {
        let hi = self.memory[self.pc as usize];
        let lo = self.memory[self.pc as usize + 1];
        self.opcode = ((hi as u16) << 8) | (lo as u16);
        proof {
            assert(self@ =~= fetched(old(self)@));
        }
        let ghost s = self@;
        let fam = self.opcode & 0xf000;
        let executed = if fam == 0x0000 {
            self.handle_0xxx()
        } else if fam == 0x1000 {
            self.handle_1xxx()
        } else if fam == 0x2000 {
            self.handle_2xxx()
        } else if fam == 0x3000 {
            self.handle_3xxx()
        } else if fam == 0x4000 {
            self.handle_4xxx()
        } else if fam == 0x6000 {
            self.handle_6xxx()
        } else if fam == 0x7000 {
            self.handle_7xxx()
        } else if fam == 0x8000 {
            self.handle_8xxx()
        } else if fam == 0xa000 {
            self.handle_axxx()
        } else if fam == 0xc000 {
            self.handle_cxxx()
        } else if fam == 0xd000 {
            self.handle_dxxx()
        } else if fam == 0xe000 {
            self.handle_exxx()
        } else if fam == 0xf000 {
            self.handle_fxxx()
        } else {
            Err(Chip8Error::UnknownOpcode { opcode: self.opcode, pc: self.pc })
        };
        match executed {
            Err(e) => {
                return Err(e);
            },
            Ok(()) => {},
        }
        let ghost rnd = choose|rnd: u8| self@ == #[trigger] step_post(s, rnd);
        proof {
            lemma_step_post_wf(s, rnd);
        }
        if self.delay_timer > 0 {
            self.delay_timer = self.delay_timer - 1;
        }
        if self.sound_timer > 0 {
            self.sound_timer = self.sound_timer - 1;
        }
        proof {
            assert(self@ =~= tick_timers(step_post(s, rnd)));
            assert(cycle_rel(s, self@));
        }
        Ok(())
    }

    /// A fresh machine in the `initial_chip8` state.
    pub fn new() -> (cpu: Chip8)
        ensures
            cpu.wf(),
            cpu@ == initial_chip8(),
    {
        let mut memory = zero_bytes(MEMORY_SIZE);
        let font = fontset();
        let mut j: usize = 0;
        while j < 80
            invariant
                j <= 80,
                memory@.len() == 4096,
                font@ == fontset_spec(),
                forall|k: int| 0 <= k < j ==> memory@[k] == fontset_spec()[k],
                forall|k: int| j <= k < 4096 ==> memory@[k] == 0,
            decreases 80 - j,
        {
            memory[j] = font[j];
            j += 1;
        }

        let cpu = Chip8 {
            memory,
            opcode: 0,
            registers: zero_bytes(REGISTERS_COUNT),
            index_counter: 0,
            pc: 0x200,
            delay_timer: 0,
            sound_timer: 0,
            stack: zero_words(STACK_SIZE),
            stack_pointer: 0,
            video: Framebuffer::new(),
            keypad: Keypad::new(),
        };
        proof {
            assert(cpu@ =~= initial_chip8());
        }
        cpu
    }

    /// Loads a ROM image verbatim at `PROGRAM_START`. An image longer than
    /// `MAX_ROM_SIZE` bytes is rejected whole: no byte of it is written.
    pub fn load_game(&mut self, game_data: &Vec<u8>) -> (result: Result<(), Chip8Error>)
        requires
            old(self).wf(),
        ensures
            final(self).wf(),
            match result {
                Ok(()) => game_data@.len() <= MAX_ROM_SIZE && final(self)@ == (Chip8View {
                    memory: loaded_memory(old(self)@.memory, game_data@),
                    ..old(self)@
                }),
                Err(e) => {
                    &&& game_data@.len() > MAX_ROM_SIZE
                    &&& e == (Chip8Error::RomTooLarge { length: game_data@.len() as usize })
                    &&& final(self)@ == old(self)@
                },
            },
    {
        if game_data.len() > MAX_ROM_SIZE {
            return Err(Chip8Error::RomTooLarge { length: game_data.len() });
        }
        let mut j: usize = 0;
        while j < game_data.len()
            invariant
                old(self).wf(),
                j <= game_data@.len(),
                game_data@.len() <= 3584,
                self.memory@.len() == 4096,
                forall|k: int|
                    0x200 <= k < 0x200 + j ==> self.memory@[k] == game_data@[k - 0x200],
                forall|k: int|
                    (0 <= k < 0x200 || 0x200 + j <= k < 4096) ==> self.memory@[k] == old(
                        self,
                    )@.memory[k],
                self@ == (Chip8View { memory: self.memory@, ..old(self)@ }),
            decreases game_data@.len() - j,
        {
            self.memory[PROGRAM_START + j] = game_data[j];
            j += 1;
        }
        proof {
            assert(self.memory@ =~= loaded_memory(old(self)@.memory, game_data@));
            assert(self@ =~= (Chip8View { memory: loaded_memory(old(self)@.memory, game_data@), ..old(self)@ }));
        }
        Ok(())
    }

    /// Marks the logical key behind `key` as held down.
    pub fn press_key(&mut self, key: PhysicalKey)
        requires
            old(self).wf(),
        ensures
            final(self).wf(),
            final(self)@ == (Chip8View {
                keypad: old(self)@.keypad.update(chip8_keycode(key), true),
                ..old(self)@
            }),
    {
        self.keypad.press_key(key);
    }

    /// Marks the logical key behind `key` as released.
    pub fn unpress_key(&mut self, key: PhysicalKey)
        requires
            old(self).wf(),
        ensures
            final(self).wf(),
            final(self)@ == (Chip8View {
                keypad: old(self)@.keypad.update(chip8_keycode(key), false),
                ..old(self)@
            }),
    {
        self.keypad.unpress_key(key);
    }

    /// Sets the state of logical key `key` in the keypad snapshot directly;
    /// a key beyond the 16 is ignored. The input collaborator mirrors its
    /// snapshot into the core through this.
    pub fn set_key_state(&mut self, key: usize, pressed: bool)
        requires
            old(self).wf(),
        ensures
            final(self).wf(),
            final(self)@ == (Chip8View {
                keypad: if key < 16 {
                    old(self)@.keypad.update(key as int, pressed)
                } else {
                    old(self)@.keypad
                },
                ..old(self)@
            }),
    {
        self.keypad.set_key(key, pressed);
    }

    /// The value of register `j`.
    pub fn register(&self, j: usize) -> (value: u8)
        requires
            self.wf(),
            j < 16,
        ensures
            value == self@.registers[j as int],
    {
        self.registers[j]
    }

    /// The program counter.
    pub fn pc(&self) -> (pc: u16)
        ensures
            pc == self@.pc,
    {
        self.pc
    }

    /// The index register.
    pub fn index_counter(&self) -> (index: u16)
        ensures
            index == self@.index_counter,
    {
        self.index_counter
    }

    /// The delay timer.
    pub fn delay_timer(&self) -> (timer: u8)
        ensures
            timer == self@.delay_timer,
    {
        self.delay_timer
    }

    /// The sound timer.
    pub fn sound_timer(&self) -> (timer: u8)
        ensures
            timer == self@.sound_timer,
    {
        self.sound_timer
    }

    /// The number of live return addresses on the call stack.
    pub fn stack_pointer(&self) -> (sp: usize)
        ensures
            sp == self@.stack_pointer,
    {
        self.stack_pointer
    }

    /// The byte at memory address `address`.
    pub fn memory_at(&self, address: usize) -> (byte: u8)
        requires
            self.wf(),
            address < 4096,
        ensures
            byte == self@.memory[address as int],
    {
        self.memory[address]
    }

    /// The pixel at row `y`, column `x`.
    pub fn pixel(&self, y: usize, x: usize) -> (pixel: u8)
        requires
            self.wf(),
            y < 32,
            x < 64,
        ensures
            pixel == self@.gfx[pixel_index(y as int, x as int)],
    {
        proof {
            self.lemma_video_wf();
        }
        self.video.pixel_state(y, x)
    }

    /// Whether the framebuffer changed since it was last presented.
    pub fn draw_flag(&self) -> (flag: bool)
        ensures
            flag == self@.draw_flag,
    {
        self.video.draw_flag()
    }

    /// Sets or clears the framebuffer's dirty flag; the display collaborator
    /// clears it after presenting.
    pub fn set_draw_flag(&mut self, flag: bool)
        requires
            old(self).wf(),
        ensures
            final(self).wf(),
            final(self)@ == (Chip8View { draw_flag: flag, ..old(self)@ }),
    {
        self.video.set_draw_flag(flag);
    }
}

} // verus!
