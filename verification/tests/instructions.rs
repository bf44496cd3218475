//! Per-instruction behaviour, driven end-to-end through ROMs.

use chip8::chip8::{Chip8, Chip8Error};

fn boot(rom: &[u8]) -> Chip8 {
    let mut cpu = Chip8::new();
    let data: Vec<u8> = rom.to_vec();
    cpu.load_game(&data).expect("ROM fits in memory");
    cpu
}

fn run(cpu: &mut Chip8, cycles: usize) {
    for _ in 0..cycles {
        cpu.emulate_cycle().expect("cycle succeeds");
    }
}

#[test]
fn load_imm_sets_register() {
    let mut cpu = boot(&[0x60, 0xFA]);
    run(&mut cpu, 1);
    assert_eq!(cpu.register(0), 0xFA);
    assert_eq!(cpu.pc(), 0x202);
}

#[test]
fn add_imm_wraps_without_flag() {
    let mut cpu = boot(&[0x60, 0xFA, 0x70, 0x0A]);
    run(&mut cpu, 2);
    assert_eq!(cpu.register(0), 4);
    assert_eq!(cpu.register(15), 0);
}

#[test]
fn skip_eq_imm_advances_by_4_when_equal() {
    let mut cpu = boot(&[0x60, 0x05, 0x30, 0x05]);
    run(&mut cpu, 2);
    assert_eq!(cpu.pc(), 0x206);
}

#[test]
fn skip_eq_imm_advances_by_2_when_unequal() {
    let mut cpu = boot(&[0x60, 0x05, 0x30, 0x06]);
    run(&mut cpu, 2);
    assert_eq!(cpu.pc(), 0x204);
}

#[test]
fn skip_ne_imm_advances_by_4_when_unequal() {
    let mut cpu = boot(&[0x60, 0x05, 0x40, 0x06]);
    run(&mut cpu, 2);
    assert_eq!(cpu.pc(), 0x206);
}

#[test]
fn skip_ne_imm_advances_by_2_when_equal() {
    let mut cpu = boot(&[0x60, 0x05, 0x40, 0x05]);
    run(&mut cpu, 2);
    assert_eq!(cpu.pc(), 0x204);
}

#[test]
fn copy_register() {
    let mut cpu = boot(&[0x61, 0x2A, 0x80, 0x10]);
    run(&mut cpu, 2);
    assert_eq!(cpu.register(0), 42);
    assert_eq!(cpu.register(1), 42);
}

#[test]
fn and_registers() {
    let mut cpu = boot(&[0x60, 0x0C, 0x61, 0x0A, 0x80, 0x12]);
    run(&mut cpu, 3);
    assert_eq!(cpu.register(0), 8);
    assert_eq!(cpu.register(1), 0x0A);
}

#[test]
fn add_carry_sets_flag_on_overflow() {
    let mut cpu = boot(&[0x60, 0xC8, 0x61, 0x64, 0x80, 0x14]);
    run(&mut cpu, 3);
    assert_eq!(cpu.register(0), 44);  // (200 + 100) mod 256
    assert_eq!(cpu.register(15), 1);
}

#[test]
fn add_carry_clears_flag_without_overflow() {
    let mut cpu = boot(&[0x60, 0x0A, 0x61, 0x14, 0x80, 0x14]);
    run(&mut cpu, 3);
    assert_eq!(cpu.register(0), 30);
    assert_eq!(cpu.register(15), 0);
}

#[test]
fn sub_flag_strict_greater_sets_flag() {
    let mut cpu = boot(&[0x60, 0x09, 0x61, 0x05, 0x80, 0x15]);
    run(&mut cpu, 3);
    assert_eq!(cpu.register(15), 1);  // 9 > 5
    assert_eq!(cpu.register(0), 4);
}

#[test]
fn sub_flag_borrow_wraps() {
    let mut cpu = boot(&[0x60, 0x05, 0x61, 0x09, 0x80, 0x15]);
    run(&mut cpu, 3);
    assert_eq!(cpu.register(15), 0);  // 5 > 9 is false
    assert_eq!(cpu.register(0), 252);  // (5 - 9) mod 256
}

#[test]
fn sub_flag_equal_values_clear_flag() {
    let mut cpu = boot(&[0x60, 0x07, 0x61, 0x07, 0x80, 0x15]);
    run(&mut cpu, 3);
    assert_eq!(cpu.register(15), 0);  // 7 > 7 is false: strict comparison
    assert_eq!(cpu.register(0), 0);
}

#[test]
fn load_index() {
    let mut cpu = boot(&[0xA1, 0x23]);
    run(&mut cpu, 1);
    assert_eq!(cpu.index_counter(), 0x123);
}

#[test]
fn font_address_is_five_bytes_per_glyph() {
    let mut cpu = boot(&[0x60, 0x07, 0xF0, 0x29]);
    run(&mut cpu, 2);
    assert_eq!(cpu.index_counter(), 35);
}

#[test]
fn random_and_masks_every_output() {
    for _ in 0..8 {
        let mut cpu = boot(&[0xC0, 0x0F]);
        run(&mut cpu, 1);
        assert_eq!(cpu.register(0) & 0xF0, 0);
    }
}

#[test]
fn random_and_zero_mask_gives_zero() {
    let mut cpu = boot(&[0xC0, 0x00]);
    run(&mut cpu, 1);
    assert_eq!(cpu.register(0), 0);
}

#[test]
fn bcd_store_round_trips_every_byte() {
    for value in 0..=255u8 {
        let mut cpu = boot(&[0x60, value, 0xA3, 0x00, 0xF0, 0x33]);
        run(&mut cpu, 3);
        let hundreds = cpu.memory_at(0x300);
        let tens = cpu.memory_at(0x301);
        let ones = cpu.memory_at(0x302);
        assert_eq!(hundreds, value / 100);
        assert_eq!(tens, (value / 10) % 10);
        assert_eq!(ones, value % 10);
        assert_eq!(100 * hundreds as u16 + 10 * tens as u16 + ones as u16, value as u16);
    }
}

#[test]
fn bcd_store_near_top_of_memory_is_rejected() {
    let mut cpu = boot(&[0xAF, 0xFE, 0xF0, 0x33]);
    run(&mut cpu, 1);
    let result = cpu.emulate_cycle();
    assert_eq!(
        result,
        Err(Chip8Error::OutOfBoundsAccess { opcode: 0xF033, pc: 0x202, address: 4096 })
    );
}

#[test]
fn reg_load_fills_registers_from_memory() {
    let mut cpu = boot(&[0xA2, 0x06, 0xF2, 0x65, 0x00, 0x00, 0x0B, 0x16, 0x21]);
    run(&mut cpu, 2);
    assert_eq!(cpu.register(0), 11);
    assert_eq!(cpu.register(1), 22);
    assert_eq!(cpu.register(2), 33);
    assert_eq!(cpu.register(3), 0);
}

#[test]
fn reg_load_past_memory_is_rejected() {
    let mut cpu = boot(&[0xAF, 0xF8, 0xFF, 0x65]);
    run(&mut cpu, 1);
    let result = cpu.emulate_cycle();
    assert_eq!(
        result,
        Err(Chip8Error::OutOfBoundsAccess { opcode: 0xFF65, pc: 0x202, address: 4103 })
    );
}

#[test]
fn get_delay_reads_pre_tick_value() {
    let mut cpu = boot(&[0x60, 0x3C, 0xF0, 0x15, 0xF1, 0x07]);
    run(&mut cpu, 2);
    assert_eq!(cpu.delay_timer(), 59);  // set to 60, then one tick
    run(&mut cpu, 1);
    assert_eq!(cpu.register(1), 59);  // read before that cycle's tick
    assert_eq!(cpu.delay_timer(), 58);
}

#[test]
fn set_sound_timer_ticks_same_cycle() {
    let mut cpu = boot(&[0x60, 0x3C, 0xF0, 0x18]);
    run(&mut cpu, 2);
    assert_eq!(cpu.sound_timer(), 59);
}

#[test]
fn timers_saturate_at_zero() {
    let mut cpu = boot(&[0x60, 0x01, 0x61, 0x02, 0x62, 0x03]);
    run(&mut cpu, 3);
    assert_eq!(cpu.delay_timer(), 0);
    assert_eq!(cpu.sound_timer(), 0);
}
