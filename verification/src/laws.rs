//! General laws of the instruction set, proved once for every machine state.
//!
//! Each law is stated over [`spec_execute`] (or the draw model), which is
//! exactly what the contract of [`crate::emu::Emu::tick`] promises a step
//! performs, so these facts carry over to every execution of the machine.

use vstd::prelude::*;

use crate::model::Chip8Error;
use crate::model::EmuView;
use crate::model::draw_collision;
use crate::model::draw_flip;
use crate::model::draw_screen_result;
use crate::model::lemma_op_word_decode;
use crate::model::op_word;
use crate::model::spec_execute;

verus! {

/// Loading an immediate: for every 8-bit `nn`, executing `6xNN` succeeds,
/// sets register `x` to exactly `nn`, and leaves every other register — and
/// the rest of the state — unchanged.
pub proof fn lemma_set_immediate(s: EmuView, x: int, nn: u8, rnd: u8)
    requires
        s.wf(),
        0 <= x < 16,
    ensures
        ({
            let op = op_word(6, x, nn as int / 16, nn as int % 16);
            &&& spec_execute(s, op, rnd) == Ok::<EmuView, Chip8Error>(EmuView {
                v_regs: s.v_regs.update(x, nn),
                ..s
            })
            &&& spec_execute(s, op, rnd)->Ok_0.v_regs[x] == nn
            &&& forall|k: int|
                0 <= k < 16 && k != x ==> spec_execute(s, op, rnd)->Ok_0.v_regs[k] == s.v_regs[k]
        }),
{
    lemma_op_word_decode(6, x, nn as int / 16, nn as int % 16);
    assert(nn as int / 16 * 16 + nn as int % 16 == nn) by {
        vstd::arithmetic::div_mod::lemma_fundamental_div_mod(nn as int, 16);
    }
}

/// Adding an immediate: `7xNN` with `Vx = a` succeeds, sets register `x` to
/// `(a + nn) mod 256`, and writes no other register. In particular the flag
/// register keeps its value whenever it is not itself the target.
pub proof fn lemma_add_immediate(s: EmuView, x: int, nn: u8, rnd: u8)
    requires
        s.wf(),
        0 <= x < 16,
    ensures
        ({
            let op = op_word(7, x, nn as int / 16, nn as int % 16);
            let a = s.v_regs[x];
            &&& spec_execute(s, op, rnd) is Ok
            &&& spec_execute(s, op, rnd)->Ok_0.v_regs[x] == (a + nn) % 256
            &&& forall|k: int|
                0 <= k < 16 && k != x ==> spec_execute(s, op, rnd)->Ok_0.v_regs[k] == s.v_regs[k]
            &&& x != 15 ==> spec_execute(s, op, rnd)->Ok_0.v_regs[15] == s.v_regs[15]
        }),
{
    lemma_op_word_decode(7, x, nn as int / 16, nn as int % 16);
    assert(nn as int / 16 * 16 + nn as int % 16 == nn) by {
        vstd::arithmetic::div_mod::lemma_fundamental_div_mod(nn as int, 16);
    }
}

/// Carry-out of addition: `8xy4` succeeds, and the flag register ends 1
/// exactly when the unmodulated sum `Vx + Vy` is at least 256, else 0;
/// register `x` (when it is not the flag register itself) ends `(Vx + Vy)
/// mod 256`.
pub proof fn lemma_add_carry(s: EmuView, x: int, y: int, rnd: u8)
    requires
        s.wf(),
        0 <= x < 16,
        0 <= y < 16,
    ensures
        ({
            let op = op_word(8, x, y, 4);
            let a = s.v_regs[x];
            let b = s.v_regs[y];
            &&& spec_execute(s, op, rnd) is Ok
            &&& spec_execute(s, op, rnd)->Ok_0.v_regs[15] == if a + b >= 256 { 1u8 } else { 0u8 }
            &&& x != 15 ==> spec_execute(s, op, rnd)->Ok_0.v_regs[x] == (a + b) % 256
        }),
{
    lemma_op_word_decode(8, x, y, 4);
}

/// Borrow of subtraction: `8xy5` succeeds, and the flag register ends 1
/// exactly when no borrow occurs (minuend `Vx` at least subtrahend `Vy`),
/// else 0; register `x` (when not the flag register) ends `(Vx - Vy) mod
/// 256`.
pub proof fn lemma_sub_borrow(s: EmuView, x: int, y: int, rnd: u8)
    requires
        s.wf(),
        0 <= x < 16,
        0 <= y < 16,
    ensures
        ({
            let op = op_word(8, x, y, 5);
            let a = s.v_regs[x];
            let b = s.v_regs[y];
            &&& spec_execute(s, op, rnd) is Ok
            &&& spec_execute(s, op, rnd)->Ok_0.v_regs[15] == if a >= b { 1u8 } else { 0u8 }
            &&& x != 15 ==> spec_execute(s, op, rnd)->Ok_0.v_regs[x] == (a - b) % 256
        }),
{
    lemma_op_word_decode(8, x, y, 5);
}

/// Borrow of the reversed subtraction: `8xy7` succeeds, and the flag
/// register ends 1 exactly when no borrow occurs (minuend `Vy` at least
/// subtrahend `Vx`), else 0; register `x` (when not the flag register) ends
/// `(Vy - Vx) mod 256`.
pub proof fn lemma_sub_borrow_reversed(s: EmuView, x: int, y: int, rnd: u8)
    requires
        s.wf(),
        0 <= x < 16,
        0 <= y < 16,
    ensures
        ({
            let op = op_word(8, x, y, 7);
            let a = s.v_regs[x];
            let b = s.v_regs[y];
            &&& spec_execute(s, op, rnd) is Ok
            &&& spec_execute(s, op, rnd)->Ok_0.v_regs[15] == if b >= a { 1u8 } else { 0u8 }
            &&& x != 15 ==> spec_execute(s, op, rnd)->Ok_0.v_regs[x] == (b - a) % 256
        }),
{
    lemma_op_word_decode(8, x, y, 7);
}

/// Toggling is its own inverse: drawing the same sprite twice at the same
/// position restores the display exactly, and the second draw turns a lit
/// pixel off exactly where the sprite has a set bit — which is also exactly
/// where the first draw had lit a dark pixel.
pub proof fn lemma_draw_twice_restores(
    screen: Seq<bool>,
    ram: Seq<u8>,
    i_reg: u16,
    x0: u8,
    y0: u8,
    n: int,
)
    requires
        screen.len() == 2048,
    ensures
        ({
            let once = draw_screen_result(screen, ram, i_reg, x0, y0, n);
            &&& draw_screen_result(once, ram, i_reg, x0, y0, n) == screen
            &&& draw_collision(once, ram, i_reg, x0, y0, n) == (exists|p: int|
                0 <= p < 2048 && #[trigger] draw_flip(ram, i_reg, x0, y0, n, p) && !screen[p])
        }),
{
    let once = draw_screen_result(screen, ram, i_reg, x0, y0, n);
    assert(draw_screen_result(once, ram, i_reg, x0, y0, n) =~= screen);
    if draw_collision(once, ram, i_reg, x0, y0, n) {
        let p0 = choose|p: int|
            0 <= p < 2048 && #[trigger] draw_flip(ram, i_reg, x0, y0, n, p) && once[p];
        assert(draw_flip(ram, i_reg, x0, y0, n, p0) && !screen[p0]);
    }
    if exists|p: int|
        0 <= p < 2048 && #[trigger] draw_flip(ram, i_reg, x0, y0, n, p) && !screen[p] {
        let p0 = choose|p: int|
            0 <= p < 2048 && #[trigger] draw_flip(ram, i_reg, x0, y0, n, p) && !screen[p];
        assert(draw_flip(ram, i_reg, x0, y0, n, p0) && once[p0]);
        assert(draw_collision(once, ram, i_reg, x0, y0, n));
    }
}

} // verus!
