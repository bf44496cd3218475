//! The 64x32 one-bit framebuffer, the XOR sprite-compositing specification,
//! and the narrow interface the rendering collaborator implements.

use vstd::prelude::*;

verus! {

pub const GFX_WIDTH: usize = 64;

pub const GFX_HEIGHT: usize = 32;

const GFX_SIZE: usize = 2048;

/// A display collaborator: presents the pixel grid whenever the core marks it
/// dirty. The grid-manipulating part of this interface is implemented by
/// [`Framebuffer`]; `update_screen` is whatever the backend does to show it.
pub trait VideoDriver {
    fn update_screen(&mut self);

    fn reinitialize_screen(&mut self);

    fn pixel_state(&self, y: usize, x: usize) -> u8;

    fn toggle_pixel_state(&mut self, y: usize, x: usize, color: u8);

    fn set_draw_flag(&mut self, flag: bool);
}

/// The flat, row-major index of the pixel at row `y`, column `x`.
pub open spec fn pixel_index(y: int, x: int) -> int {
    y * 64 + x
}

/// The bit of `sprite` row `b` at horizontal offset `c`, most-significant
/// bit leftmost: 0 or 1.
pub open spec fn sprite_pixel(sprite: Seq<u8>, b: int, c: int) -> u8 {
    (sprite[b] >> ((7 - c) as u8)) & 1
}

/// The grid after XOR-compositing `sprite` at `(vx, vy)`, wrapping
/// toroidally. A pixel at row `y`, column `x` is hit by sprite row
/// `(y - vy) mod 32` and bit `(x - vx) mod 64` when those offsets fall
/// within the sprite; every other pixel is untouched.
pub open spec fn draw_gfx(gfx: Seq<u8>, sprite: Seq<u8>, vx: u8, vy: u8) -> Seq<u8> {
    Seq::new(
        2048,
        |g: int|
            {
                let b = (g / 64 - vy) % 32;
                let c = (g % 64 - vx) % 64;
                if b < sprite.len() && c < 8 {
                    gfx[g] ^ sprite_pixel(sprite, b, c)
                } else {
                    gfx[g]
                }
            },
    )
}

/// Whether XOR-compositing `sprite` at `(vx, vy)` over `gfx` erases some lit
/// pixel: some set sprite bit lands on a pixel that is already 1.
pub open spec fn draw_collision(gfx: Seq<u8>, sprite: Seq<u8>, vx: u8, vy: u8) -> bool {
    exists|b: int, c: int|
        0 <= b < sprite.len() && 0 <= c < 8 && #[trigger] sprite_pixel(sprite, b, c) == 1
            && gfx[pixel_index((vy + b) % 32, (vx + c) % 64)] == 1
}

/// The 64x32 grid of 1-bit pixel values, plus the dirty flag that tells the
/// display collaborator whether it changed since it was last presented.
pub struct Framebuffer {
    gfx: Vec<u8>,
    draw_flag: bool,
}

impl Framebuffer {
    /// The pixel grid, flat and row-major: entry `y * 64 + x` is the pixel
    /// at row `y`, column `x`.
    pub closed spec fn grid(&self) -> Seq<u8> {
        self.gfx@
    }

    /// Whether the grid changed since it was last presented.
    pub closed spec fn dirty(&self) -> bool {
        self.draw_flag
    }

    pub open spec fn wf(&self) -> bool {
        &&& self.grid().len() == 2048
        &&& forall|g: int| 0 <= g < 2048 ==> self.grid()[g] <= 1
    }

    /// An all-dark screen, not in need of presentation.
    pub fn new() -> (fb: Framebuffer)
        ensures
            fb.wf(),
            forall|g: int| 0 <= g < 2048 ==> fb.grid()[g] == 0,
            !fb.dirty(),
    {
        Framebuffer { gfx: crate::chip8::zero_bytes(GFX_SIZE), draw_flag: false }
    }

    /// Zeroes every pixel and marks the screen dirty.
    pub fn reinitialize_screen(&mut self)
        ensures
            final(self).wf(),
            forall|g: int| 0 <= g < 2048 ==> final(self).grid()[g] == 0,
            final(self).dirty(),
    {
        self.gfx = crate::chip8::zero_bytes(GFX_SIZE);
        self.draw_flag = true;
    }

    /// The pixel at row `y`, column `x`.
    pub fn pixel_state(&self, y: usize, x: usize) -> (pixel: u8)
        requires
            self.wf(),
            y < 32,
            x < 64,
        ensures
            pixel == self.grid()[pixel_index(y as int, x as int)],
    {
        self.gfx[y * 64 + x]
    }

    /// XORs `color` into the pixel at row `y`, column `x`.
    pub fn toggle_pixel_state(&mut self, y: usize, x: usize, color: u8)
        requires
            old(self).wf(),
            y < 32,
            x < 64,
            color <= 1,
        ensures
            final(self).wf(),
            final(self).grid() == old(self).grid().update(
                pixel_index(y as int, x as int),
                old(self).grid()[pixel_index(y as int, x as int)] ^ color,
            ),
            final(self).dirty() == old(self).dirty(),
    {
        let g = y * 64 + x;
        let toggled = self.gfx[g] ^ color;
        proof {
            lemma_xor_bit(self.gfx@[g as int], color);
        }
        self.gfx[g] = toggled;
    }

    /// Sets or clears the dirty flag, leaving the grid alone.
    pub fn set_draw_flag(&mut self, flag: bool)
        ensures
            final(self).grid() == old(self).grid(),
            final(self).dirty() == flag,
    {
        self.draw_flag = flag;
    }

    /// Whether the grid changed since it was last presented.
    pub fn draw_flag(&self) -> (flag: bool)
        ensures
            flag == self.dirty(),
    {
        self.draw_flag
    }
}

/// XOR facts on single-bit bytes: toggling twice restores the pixel, and
/// toggling one bit keeps the value a bit.
pub proof fn lemma_xor_bit(p: u8, c: u8)
    by (bit_vector)
    ensures
        (p ^ c) ^ c == p,
        p <= 1 && c <= 1 ==> (p ^ c) <= 1,
        p == 0 ==> p ^ c == c,
{
}

/// Any single extracted bit is 0 or 1.
pub proof fn lemma_bit_le_one(v: u8, k: u8)
    by (bit_vector)
    ensures
        (v >> k) & 1 <= 1,
{
}

/// Wrapping an offset below the modulus and then subtracting the base
/// recovers the offset: `((base + off) % m - base) % m == off`.
proof fn lemma_wrap_mod_inverse(base: int, off: int, m: int)
    requires
        0 <= base,
        0 <= off < m,
    ensures
        0 <= (base + off) % m < m,
        ((base + off) % m - base) % m == off,
{
    vstd::arithmetic::div_mod::lemma_mod_bound(base + off, m);
    vstd::arithmetic::div_mod::lemma_fundamental_div_mod(base + off, m);
    let d = (base + off) / m;
    assert((base + off) % m - base == off - m * d);
    assert(m * (-d) == -(m * d)) by (nonlinear_arith);
    vstd::arithmetic::div_mod::lemma_mod_multiples_vanish(-d, off, m);
    assert((m * (-d) + off) % m == off % m);
    vstd::arithmetic::div_mod::lemma_small_mod(off as nat, m as nat);
}

/// The wrapped target of sprite bit `(b, c)` lies in the grid, and its flat
/// index decomposes back to exactly the offsets `(b, c)`.
proof fn lemma_target_coords(vx: u8, vy: u8, b: int, c: int)
    requires
        0 <= b < 32,
        0 <= c < 64,
    ensures
        ({
            let y = (vy + b) % 32;
            let x = (vx + c) % 64;
            let g = pixel_index(y, x);
            &&& 0 <= y < 32
            &&& 0 <= x < 64
            &&& 0 <= g < 2048
            &&& g / 64 == y
            &&& g % 64 == x
            &&& (g / 64 - vy) % 32 == b
            &&& (g % 64 - vx) % 64 == c
        }),
{
    let y = (vy + b) % 32;
    let x = (vx + c) % 64;
    lemma_wrap_mod_inverse(vy as int, b, 32);
    lemma_wrap_mod_inverse(vx as int, c, 64);
    let g = pixel_index(y, x);
    vstd::arithmetic::div_mod::lemma_fundamental_div_mod_converse(g, 64, y, x);
}

/// Every grid index decomposes to wrapped sprite offsets that map back to it.
proof fn lemma_decomp_unique(vx: u8, vy: u8, g: int)
    requires
        0 <= g < 2048,
    ensures
        ({
            let y = g / 64;
            let x = g % 64;
            let bb = (y - vy) % 32;
            let cc = (x - vx) % 64;
            &&& 0 <= y < 32
            &&& 0 <= x < 64
            &&& pixel_index(y, x) == g
            &&& 0 <= bb < 32
            &&& 0 <= cc < 64
            &&& (vy + bb) % 32 == y
            &&& (vx + cc) % 64 == x
        }),
{
    let y = g / 64;
    let x = g % 64;
    assert(0 <= y < 32) by (nonlinear_arith)
        requires
            0 <= g < 2048,
            y == g / 64,
    ;
    vstd::arithmetic::div_mod::lemma_mod_bound(x as int, 64);
    vstd::arithmetic::div_mod::lemma_mod_bound(g, 64);
    vstd::arithmetic::div_mod::lemma_fundamental_div_mod(g, 64);
    let bb = (y - vy) % 32;
    let cc = (x - vx) % 64;
    vstd::arithmetic::div_mod::lemma_mod_bound(y - vy, 32);
    vstd::arithmetic::div_mod::lemma_mod_bound(x - vx, 64);
    vstd::arithmetic::div_mod::lemma_add_mod_noop_right(vy as int, y - vy, 32);
    vstd::arithmetic::div_mod::lemma_small_mod(y as nat, 32);
    vstd::arithmetic::div_mod::lemma_add_mod_noop_right(vx as int, x - vx, 64);
    vstd::arithmetic::div_mod::lemma_small_mod(x as nat, 64);
}

/// The grid after compositing the sprite rows before `b`, and of row `b`
/// only the bits before `c`: the intermediate states of a draw, used to
/// state what each step of the compositing loop has done so far.
pub open spec fn draw_prefix(
    gfx: Seq<u8>,
    sprite: Seq<u8>,
    vx: u8,
    vy: u8,
    b: int,
    c: int,
) -> Seq<u8> {
    Seq::new(
        2048,
        |g: int|
            {
                let bb = (g / 64 - vy) % 32;
                let cc = (g % 64 - vx) % 64;
                if bb < sprite.len() && cc < 8 && (bb < b || (bb == b && cc < c)) {
                    gfx[g] ^ sprite_pixel(sprite, bb, cc)
                } else {
                    gfx[g]
                }
            },
    )
}

/// Whether some set sprite bit before `(b, c)` lands on a lit pixel of `gfx`.
pub open spec fn collision_prefix(
    gfx: Seq<u8>,
    sprite: Seq<u8>,
    vx: u8,
    vy: u8,
    b: int,
    c: int,
) -> bool {
    exists|bb: int, cc: int|
        0 <= bb < sprite.len() && 0 <= cc < 8 && (bb < b || (bb == b && cc < c))
            && #[trigger] sprite_pixel(sprite, bb, cc) == 1
            && gfx[pixel_index((vy + bb) % 32, (vx + cc) % 64)] == 1
}

/// Before anything is composited the grid is unchanged and no collision has
/// happened.
pub proof fn lemma_prefix_empty(gfx: Seq<u8>, sprite: Seq<u8>, vx: u8, vy: u8)
    requires
        gfx.len() == 2048,
    ensures
        draw_prefix(gfx, sprite, vx, vy, 0, 0) == gfx,
        !collision_prefix(gfx, sprite, vx, vy, 0, 0),
{
    assert(draw_prefix(gfx, sprite, vx, vy, 0, 0) =~= gfx);
}

/// After the whole sprite is composited the prefix is the full draw, and the
/// collisions seen are exactly `draw_collision`.
pub proof fn lemma_prefix_complete(gfx: Seq<u8>, sprite: Seq<u8>, vx: u8, vy: u8)
    ensures
        draw_prefix(gfx, sprite, vx, vy, sprite.len() as int, 0) == draw_gfx(gfx, sprite, vx, vy),
        collision_prefix(gfx, sprite, vx, vy, sprite.len() as int, 0) == draw_collision(
            gfx,
            sprite,
            vx,
            vy,
        ),
{
    let n = sprite.len() as int;
    assert(draw_prefix(gfx, sprite, vx, vy, n, 0) =~= draw_gfx(gfx, sprite, vx, vy));
    if collision_prefix(gfx, sprite, vx, vy, n, 0) {
        let (bb, cc) = choose|bb: int, cc: int|
            0 <= bb < sprite.len() && 0 <= cc < 8 && (bb < n || (bb == n && cc < 0))
                && #[trigger] sprite_pixel(sprite, bb, cc) == 1
                && gfx[pixel_index((vy + bb) % 32, (vx + cc) % 64)] == 1;
        assert(draw_collision(gfx, sprite, vx, vy));
    }
    if draw_collision(gfx, sprite, vx, vy) {
        let (bb, cc) = choose|bb: int, cc: int|
            0 <= bb < sprite.len() && 0 <= cc < 8 && #[trigger] sprite_pixel(sprite, bb, cc) == 1
                && gfx[pixel_index((vy + bb) % 32, (vx + cc) % 64)] == 1;
        assert(collision_prefix(gfx, sprite, vx, vy, n, 0));
    }
}

/// Compositing one more bit: the pixel it targets still holds its original
/// value, and the new prefix is the old one with that pixel toggled.
pub proof fn lemma_draw_prefix_step(gfx: Seq<u8>, sprite: Seq<u8>, vx: u8, vy: u8, b: int, c: int)
    requires
        gfx.len() == 2048,
        sprite.len() <= 15,
        0 <= b < sprite.len(),
        0 <= c < 8,
    ensures
        ({
            let g0 = pixel_index((vy + b) % 32, (vx + c) % 64);
            &&& 0 <= g0 < 2048
            &&& draw_prefix(gfx, sprite, vx, vy, b, c)[g0] == gfx[g0]
            &&& draw_prefix(gfx, sprite, vx, vy, b, c + 1) == draw_prefix(
                gfx,
                sprite,
                vx,
                vy,
                b,
                c,
            ).update(g0, gfx[g0] ^ sprite_pixel(sprite, b, c))
        }),
{
    let g0 = pixel_index((vy + b) % 32, (vx + c) % 64);
    lemma_target_coords(vx, vy, b, c);
    let updated = draw_prefix(gfx, sprite, vx, vy, b, c).update(
        g0,
        gfx[g0] ^ sprite_pixel(sprite, b, c),
    );
    assert forall|g: int| 0 <= g < 2048 implies draw_prefix(gfx, sprite, vx, vy, b, c + 1)[g]
        == updated[g] by {
        lemma_decomp_unique(vx, vy, g);
        if g != g0 {
            let bb = (g / 64 - vy) % 32;
            let cc = (g % 64 - vx) % 64;
            if bb == b && cc == c {
                lemma_target_coords(vx, vy, bb, cc);
                assert(g == g0);
            }
        }
    }
    assert(draw_prefix(gfx, sprite, vx, vy, b, c + 1) =~= updated);
}

/// Compositing one more bit collides exactly when a collision had already
/// happened or that bit is set and lands on a lit pixel.
pub proof fn lemma_collision_prefix_step(
    gfx: Seq<u8>,
    sprite: Seq<u8>,
    vx: u8,
    vy: u8,
    b: int,
    c: int,
)
    requires
        0 <= b < sprite.len(),
        0 <= c < 8,
    ensures
        collision_prefix(gfx, sprite, vx, vy, b, c + 1) <==> (collision_prefix(
            gfx,
            sprite,
            vx,
            vy,
            b,
            c,
        ) || (sprite_pixel(sprite, b, c) == 1 && gfx[pixel_index((vy + b) % 32, (vx + c) % 64)]
            == 1)),
{
    if collision_prefix(gfx, sprite, vx, vy, b, c + 1) {
        let (bb, cc) = choose|bb: int, cc: int|
            0 <= bb < sprite.len() && 0 <= cc < 8 && (bb < b || (bb == b && cc < c + 1))
                && #[trigger] sprite_pixel(sprite, bb, cc) == 1
                && gfx[pixel_index((vy + bb) % 32, (vx + cc) % 64)] == 1;
        if bb == b && cc == c {
        } else {
            assert(collision_prefix(gfx, sprite, vx, vy, b, c));
        }
    }
    if collision_prefix(gfx, sprite, vx, vy, b, c) {
        let (bb, cc) = choose|bb: int, cc: int|
            0 <= bb < sprite.len() && 0 <= cc < 8 && (bb < b || (bb == b && cc < c))
                && #[trigger] sprite_pixel(sprite, bb, cc) == 1
                && gfx[pixel_index((vy + bb) % 32, (vx + cc) % 64)] == 1;
        assert(collision_prefix(gfx, sprite, vx, vy, b, c + 1));
    }
    if sprite_pixel(sprite, b, c) == 1 && gfx[pixel_index((vy + b) % 32, (vx + c) % 64)] == 1 {
        assert(collision_prefix(gfx, sprite, vx, vy, b, c + 1));
    }
}

/// Finishing a row: its eight bits composited is the same prefix as the next
/// row with no bits yet.
pub proof fn lemma_prefix_row(gfx: Seq<u8>, sprite: Seq<u8>, vx: u8, vy: u8, b: int)
    requires
        0 <= b,
    ensures
        draw_prefix(gfx, sprite, vx, vy, b, 8) == draw_prefix(gfx, sprite, vx, vy, b + 1, 0),
        collision_prefix(gfx, sprite, vx, vy, b, 8) == collision_prefix(
            gfx,
            sprite,
            vx,
            vy,
            b + 1,
            0,
        ),
{
    assert(draw_prefix(gfx, sprite, vx, vy, b, 8) =~= draw_prefix(gfx, sprite, vx, vy, b + 1, 0));
    if collision_prefix(gfx, sprite, vx, vy, b, 8) {
        let (bb, cc) = choose|bb: int, cc: int|
            0 <= bb < sprite.len() && 0 <= cc < 8 && (bb < b || (bb == b && cc < 8))
                && #[trigger] sprite_pixel(sprite, bb, cc) == 1
                && gfx[pixel_index((vy + bb) % 32, (vx + cc) % 64)] == 1;
        assert(collision_prefix(gfx, sprite, vx, vy, b + 1, 0));
    }
    if collision_prefix(gfx, sprite, vx, vy, b + 1, 0) {
        let (bb, cc) = choose|bb: int, cc: int|
            0 <= bb < sprite.len() && 0 <= cc < 8 && (bb < b + 1 || (bb == b + 1 && cc < 0))
                && #[trigger] sprite_pixel(sprite, bb, cc) == 1
                && gfx[pixel_index((vy + bb) % 32, (vx + cc) % 64)] == 1;
        assert(collision_prefix(gfx, sprite, vx, vy, b, 8));
    }
}

/// Drawing the same sprite twice at the same coordinates is idempotent: the
/// grid returns to its pre-draw state, since XOR-toggling every targeted
/// pixel twice restores it. And whenever the first draw lit some pixel (a
/// set sprite bit landing on a dark one), the second draw reports a
/// collision, since the pixels it clears were lit. A sprite whose set bits
/// all land on lit pixels gives no such guarantee: the first draw clears
/// them all, and the second draw relights them without colliding.
pub proof fn lemma_draw_twice(gfx: Seq<u8>, sprite: Seq<u8>, vx: u8, vy: u8)
    requires
        gfx.len() == 2048,
        forall|g: int| 0 <= g < 2048 ==> #[trigger] gfx[g] <= 1,
        sprite.len() <= 15,
    ensures
        draw_gfx(draw_gfx(gfx, sprite, vx, vy), sprite, vx, vy) == gfx,
        (exists|b: int, c: int|
            0 <= b < sprite.len() && 0 <= c < 8 && #[trigger] sprite_pixel(sprite, b, c) == 1
                && gfx[pixel_index((vy + b) % 32, (vx + c) % 64)] == 0) ==> draw_collision(
            draw_gfx(gfx, sprite, vx, vy),
            sprite,
            vx,
            vy,
        ),
{
    let once = draw_gfx(gfx, sprite, vx, vy);
    assert forall|g: int| 0 <= g < 2048 implies draw_gfx(once, sprite, vx, vy)[g] == gfx[g] by {
        let bb = (g / 64 - vy) % 32;
        let cc = (g % 64 - vx) % 64;
        if bb < sprite.len() && cc < 8 {
            lemma_xor_bit(gfx[g], sprite_pixel(sprite, bb, cc));
        }
    }
    assert(draw_gfx(once, sprite, vx, vy) =~= gfx);
    if exists|b: int, c: int|
        0 <= b < sprite.len() && 0 <= c < 8 && #[trigger] sprite_pixel(sprite, b, c) == 1
            && gfx[pixel_index((vy + b) % 32, (vx + c) % 64)] == 0 {
        let (b, c) = choose|b: int, c: int|
            0 <= b < sprite.len() && 0 <= c < 8 && #[trigger] sprite_pixel(sprite, b, c) == 1
                && gfx[pixel_index((vy + b) % 32, (vx + c) % 64)] == 0;
        lemma_target_coords(vx, vy, b, c);
        let g0 = pixel_index((vy + b) % 32, (vx + c) % 64);
        lemma_xor_bit(gfx[g0], sprite_pixel(sprite, b, c));
        assert(once[g0] == 1);
        assert(draw_collision(once, sprite, vx, vy));
    }
}

/// Compositing keeps the grid a 64x32 field of 1-bit pixels.
pub proof fn lemma_draw_gfx_wf(gfx: Seq<u8>, sprite: Seq<u8>, vx: u8, vy: u8)
    requires
        gfx.len() == 2048,
        forall|g: int| 0 <= g < 2048 ==> #[trigger] gfx[g] <= 1,
    ensures
        draw_gfx(gfx, sprite, vx, vy).len() == 2048,
        forall|g: int| 0 <= g < 2048 ==> #[trigger] draw_gfx(gfx, sprite, vx, vy)[g] <= 1,
{
    assert forall|g: int| 0 <= g < 2048 implies #[trigger] draw_gfx(gfx, sprite, vx, vy)[g]
        <= 1 by {
        let bb = (g / 64 - vy) % 32;
        let cc = (g % 64 - vx) % 64;
        if bb < sprite.len() && cc < 8 {
            lemma_bit_le_one(sprite[bb], (7 - cc) as u8);
            lemma_xor_bit(gfx[g], sprite_pixel(sprite, bb, cc));
        }
    }
}

} // verus!
