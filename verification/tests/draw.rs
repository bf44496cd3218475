//! The framebuffer and the XOR sprite-compositing draw instruction.

use chip8::chip8::Chip8;
use chip8::chip8::Chip8Error;
use chip8::video_driver::Framebuffer;
use chip8::video_driver::GFX_HEIGHT;
use chip8::video_driver::GFX_WIDTH;

fn boot(rom: &[u8]) -> Chip8 {
    let mut cpu = Chip8::new();
    let data: Vec<u8> = rom.to_vec();
    cpu.load_game(&data).expect("ROM fits in memory");
    cpu
}

fn run(cpu: &mut Chip8, cycles: usize) {
    for _ in 0..cycles {
        cpu.emulate_cycle().expect("cycle succeeds");
    }
}

const GLYPH_0: [u8; 5] = [0xF0, 0x90, 0x90, 0x90, 0xF0];

#[test]
fn framebuffer_starts_dark_and_clean() {
    let fb = Framebuffer::new();
    assert!(!fb.draw_flag());
    for y in 0..GFX_HEIGHT {
        for x in 0..GFX_WIDTH {
            assert_eq!(fb.pixel_state(y, x), 0);
        }
    }
}

#[test]
fn framebuffer_toggle_is_xor() {
    let mut fb = Framebuffer::new();
    fb.toggle_pixel_state(3, 5, 1);
    assert_eq!(fb.pixel_state(3, 5), 1);
    fb.toggle_pixel_state(3, 5, 0);
    assert_eq!(fb.pixel_state(3, 5), 1);
    fb.toggle_pixel_state(3, 5, 1);
    assert_eq!(fb.pixel_state(3, 5), 0);
    assert_eq!(fb.pixel_state(3, 6), 0);
}

#[test]
fn framebuffer_reinitialize_clears_and_marks_dirty() {
    let mut fb = Framebuffer::new();
    fb.toggle_pixel_state(0, 0, 1);
    fb.set_draw_flag(false);
    fb.reinitialize_screen();
    assert_eq!(fb.pixel_state(0, 0), 0);
    assert!(fb.draw_flag());
    fb.set_draw_flag(false);
    assert!(!fb.draw_flag());
}

#[test]
fn draw_font_glyph_matches_bit_pattern() {
    // index := glyph 0's base address, X = 12, Y = 8, height 5
    let mut cpu = boot(&[0x60, 0x00, 0xF0, 0x29, 0x61, 0x0C, 0x62, 0x08, 0xD1, 0x25]);
    run(&mut cpu, 5);
    for y in 0..GFX_HEIGHT {
        for x in 0..GFX_WIDTH {
            let expected = if (8..13).contains(&y) && (12..20).contains(&x) {
                (GLYPH_0[y - 8] >> (7 - (x - 12))) & 1
            } else {
                0
            };
            assert_eq!(cpu.pixel(y, x), expected, "pixel at row {} column {}", y, x);
        }
    }
    assert_eq!(cpu.register(15), 0);
    assert!(cpu.draw_flag());
}

#[test]
fn draw_twice_restores_screen_and_collides() {
    let mut cpu = boot(&[0x60, 0x00, 0xF0, 0x29, 0x61, 0x03, 0x62, 0x04, 0xD1, 0x25, 0xD1, 0x25]);
    run(&mut cpu, 5);
    assert_eq!(cpu.register(15), 0);
    assert_eq!(cpu.pixel(4, 3), 1);
    run(&mut cpu, 1);
    assert_eq!(cpu.register(15), 1);  // the pixels the second draw cleared were lit
    for y in 0..GFX_HEIGHT {
        for x in 0..GFX_WIDTH {
            assert_eq!(cpu.pixel(y, x), 0, "pixel at row {} column {}", y, x);
        }
    }
}

#[test]
fn draw_wraps_toroidally() {
    // glyph 0 drawn at X = 60, Y = 30: rows 30, 31, 0, 1, 2; columns 60..64
    let mut cpu = boot(&[0x60, 0x00, 0xF0, 0x29, 0x61, 0x3C, 0x62, 0x1E, 0xD1, 0x25]);
    run(&mut cpu, 5);
    for row_offset in 0..5usize {
        let y = (30 + row_offset) % 32;
        for col_offset in 0..8usize {
            let x = (60 + col_offset) % 64;
            let expected = (GLYPH_0[row_offset] >> (7 - col_offset)) & 1;
            assert_eq!(cpu.pixel(y, x), expected, "row offset {} column offset {}", row_offset, col_offset);
        }
    }
    assert_eq!(cpu.pixel(3, 60), 0);
    assert_eq!(cpu.pixel(29, 60), 0);
}

#[test]
fn draw_of_height_zero_only_marks_dirty() {
    let mut cpu = boot(&[0xD0, 0x10]);
    run(&mut cpu, 1);
    assert_eq!(cpu.register(15), 0);
    assert!(cpu.draw_flag());
    assert_eq!(cpu.pc(), 0x202);
    for y in 0..GFX_HEIGHT {
        for x in 0..GFX_WIDTH {
            assert_eq!(cpu.pixel(y, x), 0);
        }
    }
}

#[test]
fn draw_sprite_past_memory_is_rejected() {
    let mut cpu = boot(&[0xAF, 0xFE, 0xD0, 0x15]);
    run(&mut cpu, 1);
    let result = cpu.emulate_cycle();
    assert_eq!(
        result,
        Err(Chip8Error::OutOfBoundsAccess { opcode: 0xD015, pc: 0x202, address: 4098 })
    );
}

#[test]
fn clear_screen_zeroes_pixels_and_marks_dirty() {
    let mut cpu = boot(&[0x60, 0x00, 0xF0, 0x29, 0x61, 0x00, 0x62, 0x00, 0xD1, 0x25, 0x00, 0xE0]);
    run(&mut cpu, 5);
    assert_eq!(cpu.pixel(0, 0), 1);
    cpu.set_draw_flag(false);
    run(&mut cpu, 1);
    assert!(cpu.draw_flag());
    for y in 0..GFX_HEIGHT {
        for x in 0..GFX_WIDTH {
            assert_eq!(cpu.pixel(y, x), 0);
        }
    }
}
