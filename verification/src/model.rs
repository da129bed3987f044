//! The mathematical model of the machine: a ghost mirror of the state and a
//! spec-level interpreter. Every executable operation in [`crate::emu`] is
//! specified as equal to one of the functions below.

use vstd::prelude::*;

verus! {

/// The typed conditions an operation can fail with. None of them terminates
/// the host: the machine state is left unchanged by a failing call.
#[derive(Clone, Copy, Debug, PartialEq, Eq, Structural)]
pub enum Chip8Error {
    /// A load would write past the end of memory.
    RomTooLarge,
    /// A fetched instruction word matched no pattern of the instruction table.
    UnknownOpcode(u16),
    /// A key index outside 0..16 was passed to `keypress`.
    KeyIndexOutOfRange,
    /// A call was executed with all 16 stack entries in use.
    StackOverflow,
    /// A return was executed with an empty call stack.
    StackUnderflow,
}

/// Ghost mirror of the machine state.
#[verifier::ext_equal]
pub ghost struct EmuView {
    pub pc: u16,
    pub ram: Seq<u8>,
    pub screen: Seq<bool>,
    pub v_regs: Seq<u8>,
    pub i_reg: u16,
    pub sp: u16,
    pub stack: Seq<u16>,
    pub keys: Seq<bool>,
    pub dt: u8,
    pub st: u8,
    pub play_beep: bool,
}

impl EmuView {
    /// Structural invariant of the state: fixed sizes and a stack pointer
    /// that never exceeds the stack's capacity.
    pub open spec fn wf(self) -> bool {
        &&& self.ram.len() == 4096
        &&& self.screen.len() == 2048
        &&& self.v_regs.len() == 16
        &&& self.stack.len() == 16
        &&& self.keys.len() == 16
        &&& self.sp <= 16
    }
}

/// The five rows of the built-in sprite for hexadecimal digit `d`.
pub open spec fn glyph(d: int) -> (u8, u8, u8, u8, u8) {
    if d == 0 {
        (0xF0, 0x90, 0x90, 0x90, 0xF0)
    } else if d == 1 {
        (0x20, 0x60, 0x20, 0x20, 0x70)
    } else if d == 2 {
        (0xF0, 0x10, 0xF0, 0x80, 0xF0)
    } else if d == 3 {
        (0xF0, 0x10, 0xF0, 0x10, 0xF0)
    } else if d == 4 {
        (0x90, 0x90, 0xF0, 0x10, 0x10)
    } else if d == 5 {
        (0xF0, 0x80, 0xF0, 0x10, 0xF0)
    } else if d == 6 {
        (0xF0, 0x80, 0xF0, 0x90, 0xF0)
    } else if d == 7 {
        (0xF0, 0x10, 0x20, 0x40, 0x40)
    } else if d == 8 {
        (0xF0, 0x90, 0xF0, 0x90, 0xF0)
    } else if d == 9 {
        (0xF0, 0x90, 0xF0, 0x10, 0xF0)
    } else if d == 10 {
        (0xF0, 0x90, 0xF0, 0x90, 0x90)
    } else if d == 11 {
        (0xE0, 0x90, 0xE0, 0x90, 0xE0)
    } else if d == 12 {
        (0xF0, 0x80, 0x80, 0x80, 0xF0)
    } else if d == 13 {
        (0xE0, 0x90, 0x90, 0x90, 0xE0)
    } else if d == 14 {
        (0xF0, 0x80, 0xF0, 0x80, 0xF0)
    } else {
        (0xF0, 0x80, 0xF0, 0x80, 0x80)
    }
}

/// Byte `i` of the glyph table: row `i % 5` of the glyph for digit `i / 5`.
pub open spec fn glyph_byte(i: int) -> u8 {
    let g = glyph(i / 5);
    let k = i % 5;
    if k == 0 {
        g.0
    } else if k == 1 {
        g.1
    } else if k == 2 {
        g.2
    } else if k == 3 {
        g.3
    } else {
        g.4
    }
}

/// The built-in glyph table: 16 five-byte sprites for the hexadecimal digits,
/// resident at addresses 0..80 of a freshly created machine.
pub open spec fn fontset() -> Seq<u8> {
    Seq::new(80, |i: int| glyph_byte(i))
}

/// An all-dark display.
pub open spec fn blank_screen() -> Seq<bool> {
    Seq::new(2048, |p: int| false)
}

/// Memory at creation: the glyph table followed by zeroes.
pub open spec fn initial_ram() -> Seq<u8> {
    Seq::new(4096, |i: int| if i < 80 { fontset()[i] } else { 0u8 })
}

/// The state a machine is created with, and that `reset` restores.
pub open spec fn initial_view() -> EmuView {
    EmuView {
        pc: 0x200,
        ram: initial_ram(),
        screen: blank_screen(),
        v_regs: Seq::new(16, |i: int| 0u8),
        i_reg: 0,
        sp: 0,
        stack: Seq::new(16, |i: int| 0u16),
        keys: Seq::new(16, |i: int| false),
        dt: 0,
        st: 0,
        play_beep: false,
    }
}

/// Most significant nibble of an instruction word.
pub open spec fn nib1(op: u16) -> int {
    op as int / 0x1000
}

/// Second nibble (the `x` register selector).
pub open spec fn nib2(op: u16) -> int {
    (op as int / 0x100) % 16
}

/// Third nibble (the `y` register selector).
pub open spec fn nib3(op: u16) -> int {
    (op as int / 16) % 16
}

/// Least significant nibble.
pub open spec fn nib4(op: u16) -> int {
    op as int % 16
}

/// 16-bit wraparound.
pub open spec fn wrap16(v: int) -> u16 {
    (v % 0x10000) as u16
}

/// A memory read: addresses are taken modulo the memory size, so every
/// 16-bit pointer denotes a byte of memory.
pub open spec fn byte_at(ram: Seq<u8>, addr: int) -> u8 {
    ram[addr % 4096]
}

/// Whether bit `j` (counting from the most significant bit) of a sprite row
/// is set.
pub open spec fn sprite_bit(b: u8, j: u8) -> bool {
    (b >> ((7 - j) as u8)) & 1u8 == 1u8
}

/// Whether a sprite draw flips display pixel `p`. Pixel `p` lies at column
/// `p % 64` and row `p / 64`; it is flipped exactly when its column is one of
/// the 8 columns starting at `x0` (wrapping modulo 64), its row is one of the
/// `n` rows starting at `y0` (wrapping modulo 32), and the corresponding bit
/// of the sprite row read from memory at the index register is set.
pub open spec fn draw_flip(
    ram: Seq<u8>,
    i_reg: u16,
    x0: u8,
    y0: u8,
    n: int,
    p: int,
) -> bool {
    let r = (p / 64 - y0) % 32;
    let j = (p % 64 - x0) % 64;
    r < n && j < 8 && sprite_bit(byte_at(ram, i_reg + r), j as u8)
}

/// The display after a sprite draw: each flipped pixel is toggled.
pub open spec fn draw_screen_result(
    screen: Seq<bool>,
    ram: Seq<u8>,
    i_reg: u16,
    x0: u8,
    y0: u8,
    n: int,
) -> Seq<bool> {
    Seq::new(2048, |p: int| screen[p] != draw_flip(ram, i_reg, x0, y0, n, p))
}

/// Whether a sprite draw turns any lit pixel off, accumulated over the whole
/// sprite: true exactly when some flipped pixel was lit before the draw.
pub open spec fn draw_collision(
    screen: Seq<bool>,
    ram: Seq<u8>,
    i_reg: u16,
    x0: u8,
    y0: u8,
    n: int,
) -> bool {
    exists|p: int| 0 <= p < 2048 && #[trigger] draw_flip(ram, i_reg, x0, y0, n, p) && screen[p]
}

/// The flips performed by the part of a sprite draw that precedes row `rlim`,
/// together with the first `jlim` columns of row `rlim` itself.
pub open spec fn draw_flip_upto(
    ram: Seq<u8>,
    i_reg: u16,
    x0: u8,
    y0: u8,
    rlim: int,
    jlim: int,
    p: int,
) -> bool {
    let r = (p / 64 - y0) % 32;
    let j = (p % 64 - x0) % 64;
    j < 8 && (r < rlim || (r == rlim && j < jlim)) && sprite_bit(byte_at(ram, i_reg + r), j as u8)
}

/// Whether the part of a sprite draw described by [`draw_flip_upto`] turns
/// any lit pixel off.
pub open spec fn draw_collision_upto(
    screen: Seq<bool>,
    ram: Seq<u8>,
    i_reg: u16,
    x0: u8,
    y0: u8,
    rlim: int,
    jlim: int,
) -> bool {
    exists|p: int|
        0 <= p < 2048 && #[trigger] draw_flip_upto(ram, i_reg, x0, y0, rlim, jlim, p) && screen[p]
}

/// Wrapping an offset below `m` around `base` and measuring it back from
/// `base` recovers the offset.
pub proof fn lemma_wrap_decode(base: int, off: int, m: int)
    requires
        0 < m,
        0 <= off < m,
        0 <= base,
    ensures
        (((base + off) % m) - base) % m == off,
{
    let t = (base + off) % m;
    let q = (base + off) / m;
    vstd::arithmetic::div_mod::lemma_fundamental_div_mod(base + off, m);
    assert(t - base == off - m * q);
    vstd::arithmetic::mul::lemma_mul_unary_negation(m, q);
    assert(m * (-q) + off == off - m * q);
    vstd::arithmetic::div_mod::lemma_mod_multiples_vanish(-q, off, m);
    vstd::arithmetic::div_mod::lemma_small_mod(off as nat, m as nat);
}

/// The inverse direction: a value `v` below `m` is `base` plus the wrapped
/// distance from `base` to `v`, wrapped again.
pub proof fn lemma_wrap_encode(base: int, v: int, m: int)
    requires
        0 < m,
        0 <= v < m,
        0 <= base,
    ensures
        (base + ((v - base) % m)) % m == v,
{
    let t = (v - base) % m;
    let q = (v - base) / m;
    vstd::arithmetic::div_mod::lemma_fundamental_div_mod(v - base, m);
    assert(base + t == v - m * q);
    vstd::arithmetic::mul::lemma_mul_unary_negation(m, q);
    assert(m * (-q) + v == v - m * q);
    vstd::arithmetic::div_mod::lemma_mod_multiples_vanish(-q, v, m);
    vstd::arithmetic::div_mod::lemma_small_mod(v as nat, m as nat);
}

/// A pixel index built from a column below 64 and a row below 32 decomposes
/// back into that column and row.
pub proof fn lemma_pixel_decompose(x: int, y: int)
    requires
        0 <= x < 64,
        0 <= y < 32,
    ensures
        (x + 64 * y) / 64 == y,
        (x + 64 * y) % 64 == x,
        0 <= x + 64 * y < 2048,
{
    vstd::arithmetic::div_mod::lemma_div_multiples_vanish_fancy(y, x, 64);
    vstd::arithmetic::div_mod::lemma_mod_multiples_vanish(y, x, 64);
    vstd::arithmetic::div_mod::lemma_small_mod(x as nat, 64);
}

/// Two prefixes of a draw that flip the same pixels turn the same lit pixels
/// off.
pub proof fn lemma_collision_congruent(
    screen: Seq<bool>,
    ram: Seq<u8>,
    i_reg: u16,
    x0: u8,
    y0: u8,
    r1: int,
    j1: int,
    r2: int,
    j2: int,
)
    requires
        forall|p: int|
            0 <= p < 2048 ==> draw_flip_upto(ram, i_reg, x0, y0, r1, j1, p)
                == #[trigger] draw_flip_upto(ram, i_reg, x0, y0, r2, j2, p),
    ensures
        draw_collision_upto(screen, ram, i_reg, x0, y0, r1, j1) == draw_collision_upto(
            screen,
            ram,
            i_reg,
            x0,
            y0,
            r2,
            j2,
        ),
{
    if draw_collision_upto(screen, ram, i_reg, x0, y0, r1, j1) {
        let p0 = choose|p: int|
            0 <= p < 2048 && #[trigger] draw_flip_upto(ram, i_reg, x0, y0, r1, j1, p)
                && screen[p];
        assert(draw_flip_upto(ram, i_reg, x0, y0, r2, j2, p0));
        assert(draw_collision_upto(screen, ram, i_reg, x0, y0, r2, j2));
    }
    if draw_collision_upto(screen, ram, i_reg, x0, y0, r2, j2) {
        let p0 = choose|p: int|
            0 <= p < 2048 && #[trigger] draw_flip_upto(ram, i_reg, x0, y0, r2, j2, p)
                && screen[p];
        assert(draw_flip_upto(ram, i_reg, x0, y0, r1, j1, p0));
        assert(draw_collision_upto(screen, ram, i_reg, x0, y0, r1, j1));
    }
}

/// A whole-sprite prefix flips exactly what the draw flips, so it turns a lit
/// pixel off exactly when the draw does.
pub proof fn lemma_collision_full(
    screen: Seq<bool>,
    ram: Seq<u8>,
    i_reg: u16,
    x0: u8,
    y0: u8,
    n: int,
)
    ensures
        draw_collision_upto(screen, ram, i_reg, x0, y0, n, 0) == draw_collision(
            screen,
            ram,
            i_reg,
            x0,
            y0,
            n,
        ),
{
    if draw_collision_upto(screen, ram, i_reg, x0, y0, n, 0) {
        let p0 = choose|p: int|
            0 <= p < 2048 && #[trigger] draw_flip_upto(ram, i_reg, x0, y0, n, 0, p) && screen[p];
        assert(draw_flip(ram, i_reg, x0, y0, n, p0));
        assert(draw_collision(screen, ram, i_reg, x0, y0, n));
    }
    if draw_collision(screen, ram, i_reg, x0, y0, n) {
        let p0 = choose|p: int|
            0 <= p < 2048 && #[trigger] draw_flip(ram, i_reg, x0, y0, n, p) && screen[p];
        assert(draw_flip_upto(ram, i_reg, x0, y0, n, 0, p0));
        assert(draw_collision_upto(screen, ram, i_reg, x0, y0, n, 0));
    }
}

/// Memory after copying registers 0..=x to consecutive (wrapping) addresses
/// starting at the index register.
pub open spec fn store_regs(ram: Seq<u8>, regs: Seq<u8>, i_reg: u16, k: int) -> Seq<u8>
    decreases k + 1,
{
    if k < 0 {
        ram
    } else {
        store_regs(ram, regs, i_reg, k - 1).update((i_reg + k) % 4096, regs[k])
    }
}

/// Registers after copying memory at the index register into registers 0..=x.
pub open spec fn load_regs(regs: Seq<u8>, ram: Seq<u8>, i_reg: u16, x: int) -> Seq<u8> {
    Seq::new(16, |k: int| if k <= x { byte_at(ram, i_reg + k) } else { regs[k] })
}

/// Memory after storing the decimal digits of `v` (hundreds, tens, ones) at
/// the index register.
pub open spec fn bcd_ram(ram: Seq<u8>, i_reg: u16, v: u8) -> Seq<u8> {
    ram.update((i_reg as int) % 4096, (v as int / 100) as u8)
        .update((i_reg + 1) % 4096, ((v as int / 10) % 10) as u8)
        .update((i_reg + 2) % 4096, (v as int % 10) as u8)
}

/// The lowest-numbered pressed key at or above `k`, or 16 if none is pressed.
pub open spec fn first_pressed_from(keys: Seq<bool>, k: int) -> int
    decreases 16 - k,
{
    if k < 0 || k >= 16 {
        16
    } else if keys[k] {
        k
    } else {
        first_pressed_from(keys, k + 1)
    }
}

/// An instruction word is its four nibbles reassembled; its low twelve bits
/// and low byte are the corresponding nibble groups, and every nibble is
/// below 16.
pub proof fn lemma_decode(op: u16)
    ensures
        0 <= nib1(op) < 16,
        0 <= nib2(op) < 16,
        0 <= nib3(op) < 16,
        0 <= nib4(op) < 16,
        op == nib1(op) * 0x1000 + nib2(op) * 0x100 + nib3(op) * 16 + nib4(op),
        op as int % 0x1000 == nib2(op) * 0x100 + nib3(op) * 16 + nib4(op),
        op as int % 0x100 == nib3(op) * 16 + nib4(op),
{
    assert(op == (op / 0x1000) * 0x1000 + ((op / 0x100) % 16) * 0x100 + ((op / 16) % 16) * 16
        + op % 16) by (bit_vector);
    assert(op % 0x1000 == ((op / 0x100) % 16) * 0x100 + ((op / 16) % 16) * 16 + op % 16)
        by (bit_vector);
    assert(op % 0x100 == ((op / 16) % 16) * 16 + op % 16) by (bit_vector);
    assert(op / 0x1000 < 16 && (op / 0x100) % 16 < 16 && (op / 16) % 16 < 16 && op % 16 < 16)
        by (bit_vector);
}

/// Assemble an instruction word from its four nibbles.
pub open spec fn op_word(a: int, b: int, c: int, d: int) -> u16 {
    (a * 0x1000 + b * 0x100 + c * 16 + d) as u16
}

/// An assembled instruction word decodes back into its nibbles, and its low
/// nibble groups are what they were assembled from.
pub proof fn lemma_op_word_decode(a: int, b: int, c: int, d: int)
    requires
        0 <= a < 16,
        0 <= b < 16,
        0 <= c < 16,
        0 <= d < 16,
    ensures
        op_word(a, b, c, d) == a * 0x1000 + b * 0x100 + c * 16 + d,
        nib1(op_word(a, b, c, d)) == a,
        nib2(op_word(a, b, c, d)) == b,
        nib3(op_word(a, b, c, d)) == c,
        nib4(op_word(a, b, c, d)) == d,
        op_word(a, b, c, d) as int % 0x1000 == b * 0x100 + c * 16 + d,
        op_word(a, b, c, d) as int % 0x100 == c * 16 + d,
{
    let v = a * 0x1000 + b * 0x100 + c * 16 + d;
    assert(0 <= v < 0x10000);
    let op = op_word(a, b, c, d);
    assert(op == v);
    vstd::arithmetic::div_mod::lemma_div_multiples_vanish_fancy(a, b * 0x100 + c * 16 + d, 0x1000);
    vstd::arithmetic::div_mod::lemma_div_multiples_vanish_fancy(16 * a + b, c * 16 + d, 0x100);
    vstd::arithmetic::div_mod::lemma_div_multiples_vanish_fancy(0x100 * a + 16 * b + c, d, 16);
    assert(v / 0x1000 == a);
    assert(v / 0x100 == 16 * a + b);
    assert(v / 16 == 0x100 * a + 16 * b + c);
    vstd::arithmetic::div_mod::lemma_mod_multiples_vanish(a, b, 16);
    vstd::arithmetic::div_mod::lemma_small_mod(b as nat, 16);
    assert((16 * a + b) % 16 == b);
    vstd::arithmetic::div_mod::lemma_mod_multiples_vanish(16 * a + b, c, 16);
    vstd::arithmetic::div_mod::lemma_small_mod(c as nat, 16);
    assert((0x100 * a + 16 * b + c) % 16 == c) by {
        assert(0x100 * a + 16 * b + c == 16 * (16 * a + b) + c);
    }
    vstd::arithmetic::div_mod::lemma_mod_multiples_vanish(0x100 * a + 16 * b + c, d, 16);
    vstd::arithmetic::div_mod::lemma_small_mod(d as nat, 16);
    assert(v % 16 == d) by {
        assert(v == 16 * (0x100 * a + 16 * b + c) + d);
    }
    vstd::arithmetic::div_mod::lemma_mod_multiples_vanish(16 * a + b, c * 16 + d, 0x100);
    vstd::arithmetic::div_mod::lemma_small_mod((c * 16 + d) as nat, 0x100);
    assert(v % 0x100 == c * 16 + d) by {
        assert(v == 0x100 * (16 * a + b) + (c * 16 + d));
    }
    vstd::arithmetic::div_mod::lemma_mod_multiples_vanish(a, b * 0x100 + c * 16 + d, 0x1000);
    vstd::arithmetic::div_mod::lemma_small_mod((b * 0x100 + c * 16 + d) as nat, 0x1000);
    assert(v % 0x1000 == b * 0x100 + c * 16 + d) by {
        assert(v == 0x1000 * a + (b * 0x100 + c * 16 + d));
    }
}

/// Executing one already-fetched instruction word. `s` is the state after the
/// fetch (program counter already advanced past the word); `rnd` is the byte
/// drawn for the random-number instruction, unused by every other pattern.
/// An unmatched pattern, a call with a full stack and a return with an empty
/// stack fail, leaving the state untouched.
pub open spec fn spec_execute(s: EmuView, op: u16, rnd: u8) -> Result<EmuView, Chip8Error> {
    let d1 = nib1(op);
    let d3 = nib3(op);
    let d4 = nib4(op);
    let x = nib2(op);
    let y = nib3(op);
    let nn = (op as int % 256) as u8;
    let nnn = (op as int % 4096) as u16;
    let vx = s.v_regs[x];
    let vy = s.v_regs[y];
    if op == 0x0000 {
        // no-op
        Ok(s)
    } else if op == 0x00E0 {
        // clear display
        Ok(EmuView { screen: blank_screen(), ..s })
    } else if op == 0x00EE {
        // return from subroutine
        if s.sp == 0 {
            Err(Chip8Error::StackUnderflow)
        } else {
            Ok(EmuView { sp: (s.sp - 1) as u16, pc: s.stack[s.sp - 1], ..s })
        }
    } else if d1 == 1 {
        // jump
        Ok(EmuView { pc: nnn, ..s })
    } else if d1 == 2 {
        // call subroutine
        if s.sp >= 16 {
            Err(Chip8Error::StackOverflow)
        } else {
            Ok(EmuView {
                stack: s.stack.update(s.sp as int, s.pc),
                sp: (s.sp + 1) as u16,
                pc: nnn,
                ..s
            })
        }
    } else if d1 == 3 {
        // skip if Vx == nn
        Ok(if vx == nn { EmuView { pc: wrap16(s.pc + 2), ..s } } else { s })
    } else if d1 == 4 {
        // skip if Vx != nn
        Ok(if vx != nn { EmuView { pc: wrap16(s.pc + 2), ..s } } else { s })
    } else if d1 == 5 && d4 == 0 {
        // skip if Vx == Vy
        Ok(if vx == vy { EmuView { pc: wrap16(s.pc + 2), ..s } } else { s })
    } else if d1 == 6 {
        // Vx = nn
        Ok(EmuView { v_regs: s.v_regs.update(x, nn), ..s })
    } else if d1 == 7 {
        // Vx += nn, modulo 256, flag register untouched
        Ok(EmuView { v_regs: s.v_regs.update(x, ((vx + nn) % 256) as u8), ..s })
    } else if d1 == 8 && d4 == 0 {
        Ok(EmuView { v_regs: s.v_regs.update(x, vy), ..s })
    } else if d1 == 8 && d4 == 1 {
        Ok(EmuView { v_regs: s.v_regs.update(x, vx | vy), ..s })
    } else if d1 == 8 && d4 == 2 {
        Ok(EmuView { v_regs: s.v_regs.update(x, vx & vy), ..s })
    } else if d1 == 8 && d4 == 3 {
        Ok(EmuView { v_regs: s.v_regs.update(x, vx ^ vy), ..s })
    } else if d1 == 8 && d4 == 4 {
        // Vx += Vy with carry-out in the flag register
        Ok(EmuView {
            v_regs: s.v_regs.update(x, ((vx + vy) % 256) as u8).update(
                15,
                if vx + vy >= 256 { 1u8 } else { 0u8 },
            ),
            ..s
        })
    } else if d1 == 8 && d4 == 5 {
        // Vx -= Vy; flag register 1 when no borrow occurs
        Ok(EmuView {
            v_regs: s.v_regs.update(x, ((vx - vy) % 256) as u8).update(
                15,
                if vx >= vy { 1u8 } else { 0u8 },
            ),
            ..s
        })
    } else if d1 == 8 && d4 == 6 {
        // Vx >>= 1; flag register takes the bit shifted out
        Ok(EmuView {
            v_regs: s.v_regs.update(x, (vx as int / 2) as u8).update(15, (vx as int % 2) as u8),
            ..s
        })
    } else if d1 == 8 && d4 == 7 {
        // Vx = Vy - Vx; flag register 1 when no borrow occurs
        Ok(EmuView {
            v_regs: s.v_regs.update(x, ((vy - vx) % 256) as u8).update(
                15,
                if vy >= vx { 1u8 } else { 0u8 },
            ),
            ..s
        })
    } else if d1 == 8 && d4 == 0xE {
        // Vx <<= 1 modulo 256; flag register takes the bit shifted out
        Ok(EmuView {
            v_regs: s.v_regs.update(x, ((vx * 2) % 256) as u8).update(
                15,
                (vx as int / 128) as u8,
            ),
            ..s
        })
    } else if d1 == 9 && d4 == 0 {
        // skip if Vx != Vy
        Ok(if vx != vy { EmuView { pc: wrap16(s.pc + 2), ..s } } else { s })
    } else if d1 == 0xA {
        Ok(EmuView { i_reg: nnn, ..s })
    } else if d1 == 0xB {
        // jump to V0 + nnn
        Ok(EmuView { pc: (s.v_regs[0] + nnn) as u16, ..s })
    } else if d1 == 0xC {
        // Vx = random byte masked by nn
        Ok(EmuView { v_regs: s.v_regs.update(x, rnd & nn), ..s })
    } else if d1 == 0xD {
        // draw an n-row sprite at (Vx, Vy)
        Ok(EmuView {
            screen: draw_screen_result(s.screen, s.ram, s.i_reg, vx, vy, d4),
            v_regs: s.v_regs.update(
                15,
                if draw_collision(s.screen, s.ram, s.i_reg, vx, vy, d4) { 1u8 } else { 0u8 },
            ),
            ..s
        })
    } else if d1 == 0xE && d3 == 9 && d4 == 0xE {
        // skip if the key selected by Vx is pressed
        Ok(if s.keys[vx as int % 16] { EmuView { pc: wrap16(s.pc + 2), ..s } } else { s })
    } else if d1 == 0xE && d3 == 0xA && d4 == 1 {
        // skip if the key selected by Vx is not pressed
        Ok(if !s.keys[vx as int % 16] { EmuView { pc: wrap16(s.pc + 2), ..s } } else { s })
    } else if d1 == 0xF && d3 == 0 && d4 == 7 {
        // Vx = delay timer
        Ok(EmuView { v_regs: s.v_regs.update(x, s.dt), ..s })
    } else if d1 == 0xF && d3 == 0 && d4 == 0xA {
        // wait for a key: rewind the program counter while none is pressed
        if first_pressed_from(s.keys, 0) == 16 {
            Ok(EmuView { pc: wrap16(s.pc - 2), ..s })
        } else {
            Ok(EmuView { v_regs: s.v_regs.update(x, first_pressed_from(s.keys, 0) as u8), ..s })
        }
    } else if d1 == 0xF && d3 == 1 && d4 == 5 {
        Ok(EmuView { dt: vx, ..s })
    } else if d1 == 0xF && d3 == 1 && d4 == 8 {
        Ok(EmuView { st: vx, ..s })
    } else if d1 == 0xF && d3 == 1 && d4 == 0xE {
        // index register += Vx, wrapping modulo 65536
        Ok(EmuView { i_reg: wrap16(s.i_reg + vx), ..s })
    } else if d1 == 0xF && d3 == 2 && d4 == 9 {
        // index register points at the built-in glyph for the digit in Vx
        Ok(EmuView { i_reg: (vx * 5) as u16, ..s })
    } else if d1 == 0xF && d3 == 3 && d4 == 3 {
        // store the decimal digits of Vx at the index register
        Ok(EmuView { ram: bcd_ram(s.ram, s.i_reg, vx), ..s })
    } else if d1 == 0xF && d3 == 5 && d4 == 5 {
        // copy registers 0..=x into memory at the index register
        Ok(EmuView { ram: store_regs(s.ram, s.v_regs, s.i_reg, x), ..s })
    } else if d1 == 0xF && d3 == 6 && d4 == 5 {
        // copy memory at the index register into registers 0..=x
        Ok(EmuView { v_regs: load_regs(s.v_regs, s.ram, s.i_reg, x), ..s })
    } else {
        Err(Chip8Error::UnknownOpcode(op))
    }
}

/// The big-endian instruction word at the program counter.
pub open spec fn spec_op(s: EmuView) -> u16 {
    (byte_at(s.ram, s.pc as int) as int * 256 + byte_at(s.ram, s.pc as int + 1) as int) as u16
}

/// One timer-decay phase: each nonzero timer counts down by one, and the beep
/// signal is latched when the sound timer reaches zero. The latch is never
/// cleared here; that is the host's job.
pub open spec fn spec_tick_timers(s: EmuView) -> EmuView {
    EmuView {
        dt: if s.dt > 0 { (s.dt - 1) as u8 } else { s.dt },
        st: if s.st > 0 { (s.st - 1) as u8 } else { s.st },
        play_beep: if s.st == 1 { true } else { s.play_beep },
        ..s
    }
}

/// One whole engine step: fetch the word at the program counter, advance the
/// program counter past it, execute the word, then decay the timers. A failing
/// execution fails the step and leaves the state untouched.
pub open spec fn spec_tick(s: EmuView, rnd: u8) -> Result<EmuView, Chip8Error> {
    let op = spec_op(s);
    let fetched = EmuView { pc: wrap16(s.pc + 2), ..s };
    match spec_execute(fetched, op, rnd) {
        Ok(t) => Ok(spec_tick_timers(t)),
        Err(e) => Err(e),
    }
}

/// The memory image after a load: the program bytes at 512.., the rest as it
/// was.
pub open spec fn spec_load(ram: Seq<u8>, program: Seq<u8>) -> Seq<u8> {
    Seq::new(
        4096,
        |i: int| if 512 <= i < 512 + program.len() { program[i - 512] } else { ram[i] },
    )
}

} // verus!
