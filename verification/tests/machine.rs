//! Machine lifecycle: construction, ROM loading, control flow, fatal errors,
//! and the keypad snapshot.

use chip8::chip8::Chip8;
use chip8::chip8::Chip8Error;
use chip8::chip8::MAX_ROM_SIZE;
use chip8::keypad::Keypad;
use chip8::keypad::PhysicalKey;
use chip8::CPU;

fn boot(rom: &[u8]) -> Chip8 {
    let mut cpu = Chip8::new();
    let data: Vec<u8> = rom.to_vec();
    cpu.load_game(&data).expect("ROM fits in memory");
    cpu
}

fn run(cpu: &mut Chip8, cycles: usize) {
    for _ in 0..cycles {
        cpu.emulate_cycle().expect("cycle succeeds");
    }
}

#[test]
fn new_machine_initial_state() {
    let cpu = Chip8::new();
    assert_eq!(cpu.pc(), 0x200);
    assert_eq!(cpu.index_counter(), 0);
    assert_eq!(cpu.stack_pointer(), 0);
    assert_eq!(cpu.delay_timer(), 0);
    assert_eq!(cpu.sound_timer(), 0);
    assert!(!cpu.draw_flag());
    for j in 0..16 {
        assert_eq!(cpu.register(j), 0);
    }
    // the font occupies addresses 0..80, everything above is zero
    assert_eq!(cpu.memory_at(0), 0xF0);
    assert_eq!(cpu.memory_at(4), 0xF0);
    assert_eq!(cpu.memory_at(5), 0x20);
    assert_eq!(cpu.memory_at(79), 0x80);
    assert_eq!(cpu.memory_at(80), 0);
    assert_eq!(cpu.memory_at(0x200), 0);
}

#[test]
fn cpu_record_constructs() {
    let _cpu = CPU::new();
}

#[test]
fn load_game_places_rom_at_program_start() {
    let cpu = boot(&[1, 2, 3]);
    assert_eq!(cpu.memory_at(0x200), 1);
    assert_eq!(cpu.memory_at(0x201), 2);
    assert_eq!(cpu.memory_at(0x202), 3);
    assert_eq!(cpu.memory_at(0x203), 0);
    assert_eq!(cpu.memory_at(0), 0xF0);  // the font is untouched
}

#[test]
fn load_game_rejects_oversized_rom_whole() {
    let mut cpu = Chip8::new();
    let too_big: Vec<u8> = vec![0xAB; MAX_ROM_SIZE + 1];
    assert_eq!(
        cpu.load_game(&too_big),
        Err(Chip8Error::RomTooLarge { length: MAX_ROM_SIZE + 1 })
    );
    // not a partial load: no byte was written
    assert_eq!(cpu.memory_at(0x200), 0);
    assert_eq!(cpu.memory_at(0x200 + 100), 0);
    assert_eq!(cpu.memory_at(4095), 0);
}

#[test]
fn load_game_accepts_largest_rom() {
    let mut cpu = Chip8::new();
    let largest: Vec<u8> = vec![0xAB; MAX_ROM_SIZE];
    assert_eq!(cpu.load_game(&largest), Ok(()));
    assert_eq!(cpu.memory_at(0x200), 0xAB);
    assert_eq!(cpu.memory_at(4095), 0xAB);
}

#[test]
fn unknown_opcode_reports_opcode_and_pc() {
    let mut cpu = boot(&[0x51, 0x20]);
    assert_eq!(
        cpu.emulate_cycle(),
        Err(Chip8Error::UnknownOpcode { opcode: 0x5120, pc: 0x200 })
    );
    assert_eq!(cpu.pc(), 0x200);
}

#[test]
fn unknown_family_8_variant() {
    let mut cpu = boot(&[0x8A, 0xB7]);
    assert_eq!(
        cpu.emulate_cycle(),
        Err(Chip8Error::UnknownOpcode { opcode: 0x8AB7, pc: 0x200 })
    );
}

#[test]
fn unknown_family_f_variant() {
    let mut cpu = boot(&[0xF0, 0x0A]);
    assert_eq!(
        cpu.emulate_cycle(),
        Err(Chip8Error::UnknownOpcode { opcode: 0xF00A, pc: 0x200 })
    );
}

#[test]
fn family_0_selects_by_low_byte() {
    let mut cpu = boot(&[0x00, 0xF0]);
    assert_eq!(
        cpu.emulate_cycle(),
        Err(Chip8Error::UnknownOpcode { opcode: 0x00F0, pc: 0x200 })
    );
}

#[test]
fn jump_sets_pc() {
    let mut cpu = boot(&[0x12, 0x46]);
    run(&mut cpu, 1);
    assert_eq!(cpu.pc(), 0x246);
}

#[test]
fn jump_to_odd_address_is_rejected() {
    let mut cpu = boot(&[0x12, 0x01]);
    assert_eq!(
        cpu.emulate_cycle(),
        Err(Chip8Error::MisalignedJump { opcode: 0x1201, pc: 0x200, target: 0x201 })
    );
}

#[test]
fn call_then_return_restores_pc_to_next_instruction() {
    let mut cpu = boot(&[0x22, 0x06, 0x00, 0x00, 0x00, 0x00, 0x00, 0xEE]);
    run(&mut cpu, 1);
    assert_eq!(cpu.pc(), 0x206);
    assert_eq!(cpu.stack_pointer(), 1);
    run(&mut cpu, 1);
    assert_eq!(cpu.pc(), 0x202);  // exactly the instruction after the call
    assert_eq!(cpu.stack_pointer(), 0);
}

#[test]
fn return_on_empty_stack_underflows() {
    let mut cpu = boot(&[0x00, 0xEE]);
    assert_eq!(
        cpu.emulate_cycle(),
        Err(Chip8Error::StackUnderflow { opcode: 0x00EE, pc: 0x200 })
    );
}

#[test]
fn seventeenth_nested_call_overflows() {
    let mut cpu = boot(&[0x22, 0x00]);
    for _ in 0..16 {
        cpu.emulate_cycle().expect("call within capacity");
    }
    assert_eq!(cpu.stack_pointer(), 16);
    assert_eq!(
        cpu.emulate_cycle(),
        Err(Chip8Error::StackOverflow { opcode: 0x2200, pc: 0x200 })
    );
}

#[test]
fn advancing_pc_past_top_of_memory_is_rejected() {
    let mut rom: Vec<u8> = vec![0; MAX_ROM_SIZE];
    rom[0] = 0x1F;
    rom[1] = 0xFE;  // jump to 4094
    rom[3582] = 0x60;
    rom[3583] = 0x05;  // the instruction at 4094
    let mut cpu = Chip8::new();
    cpu.load_game(&rom).expect("ROM fits in memory");
    run(&mut cpu, 1);
    assert_eq!(cpu.pc(), 4094);
    assert_eq!(
        cpu.emulate_cycle(),
        Err(Chip8Error::OutOfBoundsAccess { opcode: 0x6005, pc: 4094, address: 4096 })
    );
}

#[test]
fn skip_key_pressed_with_key_down() {
    let mut cpu = boot(&[0x6A, 0x04, 0xEA, 0x9E]);
    cpu.press_key(PhysicalKey::Q);  // Q is logical key 4
    run(&mut cpu, 2);
    assert_eq!(cpu.pc(), 0x206);
}

#[test]
fn skip_key_pressed_with_key_up() {
    let mut cpu = boot(&[0x6A, 0x04, 0xEA, 0x9E]);
    run(&mut cpu, 2);
    assert_eq!(cpu.pc(), 0x204);
}

#[test]
fn skip_key_not_pressed() {
    let mut cpu = boot(&[0x6A, 0x04, 0xEA, 0xA1]);
    run(&mut cpu, 2);
    assert_eq!(cpu.pc(), 0x206);
    let mut held = boot(&[0x6A, 0x04, 0xEA, 0xA1]);
    held.press_key(PhysicalKey::Q);
    run(&mut held, 2);
    assert_eq!(held.pc(), 0x204);
}

#[test]
fn released_key_no_longer_skips() {
    let mut cpu = boot(&[0x6A, 0x04, 0xEA, 0x9E]);
    cpu.press_key(PhysicalKey::Q);
    cpu.unpress_key(PhysicalKey::Q);
    run(&mut cpu, 2);
    assert_eq!(cpu.pc(), 0x204);
}

#[test]
fn key_skip_with_register_out_of_keypad_range() {
    let mut cpu = boot(&[0x6A, 0xC8, 0xEA, 0x9E]);
    run(&mut cpu, 1);
    assert_eq!(
        cpu.emulate_cycle(),
        Err(Chip8Error::OutOfBoundsAccess { opcode: 0xEA9E, pc: 0x202, address: 200 })
    );
}

#[test]
fn keypad_maps_the_documented_table() {
    let table = [
        (PhysicalKey::Num1, 0x1),
        (PhysicalKey::Num2, 0x2),
        (PhysicalKey::Num3, 0x3),
        (PhysicalKey::Num4, 0xC),
        (PhysicalKey::Q, 0x4),
        (PhysicalKey::W, 0x5),
        (PhysicalKey::E, 0x6),
        (PhysicalKey::R, 0xD),
        (PhysicalKey::A, 0x7),
        (PhysicalKey::S, 0x8),
        (PhysicalKey::D, 0x9),
        (PhysicalKey::F, 0xE),
        (PhysicalKey::Z, 0xA),
        (PhysicalKey::X, 0x0),
        (PhysicalKey::C, 0xB),
        (PhysicalKey::V, 0xF),
    ];
    let mut keypad = Keypad::new();
    for code in 0..16 {
        assert!(!keypad.is_pressed(code));
    }
    for (key, code) in table {
        keypad.press_key(key);
        for other in 0..16 {
            assert_eq!(keypad.is_pressed(other), other == code);
        }
        keypad.unpress_key(key);
        assert!(!keypad.is_pressed(code));
    }
}

#[test]
fn keypad_set_key_ignores_out_of_range_codes() {
    let mut keypad = Keypad::new();
    keypad.set_key(5, true);
    assert!(keypad.is_pressed(5));
    keypad.set_key(20, true);
    for code in 0..16 {
        assert_eq!(keypad.is_pressed(code), code == 5);
    }
}

#[test]
fn chip8_set_key_state_mirrors_snapshot() {
    let mut cpu = boot(&[0x6A, 0x04, 0xEA, 0x9E]);
    cpu.set_key_state(4, true);
    cpu.set_key_state(99, true);  // ignored
    run(&mut cpu, 2);
    assert_eq!(cpu.pc(), 0x206);
}
