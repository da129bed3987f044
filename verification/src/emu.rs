//! The executable machine.

use vstd::prelude::*;

use crate::model::Chip8Error;
use crate::model::EmuView;
use crate::model::blank_screen;
use crate::model::byte_at;
use crate::model::draw_collision;
use crate::model::draw_collision_upto;
use crate::model::draw_flip;
use crate::model::draw_flip_upto;
use crate::model::draw_screen_result;
use crate::model::glyph;
use crate::model::glyph_byte;
use crate::model::initial_ram;
use crate::model::initial_view;
use crate::model::lemma_collision_congruent;
use crate::model::lemma_collision_full;
use crate::model::lemma_pixel_decompose;
use crate::model::lemma_wrap_decode;
use crate::model::lemma_wrap_encode;
use crate::model::first_pressed_from;
use crate::model::lemma_decode;
use crate::model::load_regs;
use crate::model::spec_execute;
use crate::model::spec_load;
use crate::model::spec_op;
use crate::model::spec_tick;
use crate::model::spec_tick_timers;
use crate::model::sprite_bit;
use crate::model::store_regs;
use crate::model::wrap16;

verus! {

/// A vector of `n` dark pixels or unpressed keys.
fn make_falses(n: usize) -> (v: Vec<bool>)
    ensures
        v@ == Seq::new(n as nat, |i: int| false),
{
    let mut v: Vec<bool> = Vec::new();
    while v.len() < n
        invariant
            v@.len() <= n,
            forall|i: int| 0 <= i < v@.len() ==> v@[i] == false,
        decreases n - v@.len(),
    {
        v.push(false);
    }
    proof {
        assert(v@ =~= Seq::new(n as nat, |i: int| false));
    }
    v
}

/// A vector of `n` zeroed 16-bit words.
fn make_zero_words(n: usize) -> (v: Vec<u16>)
    ensures
        v@ == Seq::new(n as nat, |i: int| 0u16),
{
    let mut v: Vec<u16> = Vec::new();
    while v.len() < n
        invariant
            v@.len() <= n,
            forall|i: int| 0 <= i < v@.len() ==> v@[i] == 0u16,
        decreases n - v@.len(),
    {
        v.push(0u16);
    }
    proof {
        assert(v@ =~= Seq::new(n as nat, |i: int| 0u16));
    }
    v
}

/// A vector of `n` zeroed registers.
fn make_zero_bytes(n: usize) -> (v: Vec<u8>)
    ensures
        v@ == Seq::new(n as nat, |i: int| 0u8),
{
    let mut v: Vec<u8> = Vec::new();
    while v.len() < n
        invariant
            v@.len() <= n,
            forall|i: int| 0 <= i < v@.len() ==> v@[i] == 0u8,
        decreases n - v@.len(),
    {
        v.push(0u8);
    }
    proof {
        assert(v@ =~= Seq::new(n as nat, |i: int| 0u8));
    }
    v
}

/// The five rows of the built-in sprite for hexadecimal digit `d`.
fn glyph_rows(d: u16) -> (r: (u8, u8, u8, u8, u8))
    requires
        d < 16,
    ensures
        r == glyph(d as int),
{
    match d {
        0 => (0xF0, 0x90, 0x90, 0x90, 0xF0),
        1 => (0x20, 0x60, 0x20, 0x20, 0x70),
        2 => (0xF0, 0x10, 0xF0, 0x80, 0xF0),
        3 => (0xF0, 0x10, 0xF0, 0x10, 0xF0),
        4 => (0x90, 0x90, 0xF0, 0x10, 0x10),
        5 => (0xF0, 0x80, 0xF0, 0x10, 0xF0),
        6 => (0xF0, 0x80, 0xF0, 0x90, 0xF0),
        7 => (0xF0, 0x10, 0x20, 0x40, 0x40),
        8 => (0xF0, 0x90, 0xF0, 0x90, 0xF0),
        9 => (0xF0, 0x90, 0xF0, 0x10, 0xF0),
        10 => (0xF0, 0x90, 0xF0, 0x90, 0x90),
        11 => (0xE0, 0x90, 0xE0, 0x90, 0xE0),
        12 => (0xF0, 0x80, 0x80, 0x80, 0xF0),
        13 => (0xE0, 0x90, 0x90, 0x90, 0xE0),
        14 => (0xF0, 0x80, 0xF0, 0x80, 0xF0),
        _ => (0xF0, 0x80, 0xF0, 0x80, 0x80),
    }
}

/// Memory as it is at creation: the glyph table at 0..80, zeroes beyond.
fn initial_ram_vec() -> (v: Vec<u8>)
    ensures
        v@ == initial_ram(),
{
    let mut v: Vec<u8> = Vec::new();
    let mut d: u16 = 0;
    while d < 16
        invariant
            d <= 16,
            v@.len() == 5 * d,
            forall|i: int| 0 <= i < v@.len() ==> v@[i] == glyph_byte(i),
        decreases 16 - d,
    {
        let g = glyph_rows(d);
        v.push(g.0);
        v.push(g.1);
        v.push(g.2);
        v.push(g.3);
        v.push(g.4);
        proof {
            assert forall|i: int| 5 * (d as int) <= i < 5 * (d as int) + 5 implies v@[i]
                == glyph_byte(i) by {
                let k = i - 5 * (d as int);
                vstd::arithmetic::div_mod::lemma_div_multiples_vanish_fancy(d as int, k, 5);
                vstd::arithmetic::div_mod::lemma_mod_multiples_vanish(d as int, k, 5);
                vstd::arithmetic::div_mod::lemma_small_mod(k as nat, 5);
                assert(i / 5 == d as int);
                assert(i % 5 == k);
            }
        }
        d = d + 1;
    }
    while v.len() < 4096
        invariant
            80 <= v@.len() <= 4096,
            forall|i: int| 0 <= i < 80 ==> v@[i] == glyph_byte(i),
            forall|i: int| 80 <= i < v@.len() ==> v@[i] == 0u8,
        decreases 4096 - v@.len(),
    {
        v.push(0u8);
    }
    proof {
        assert(v@ =~= initial_ram());
    }
    v
}

/// Relies on `rand::random`: draws one byte from the thread-local generator.
/// Nothing is promised of the result; callers state what holds of every byte.
#[verifier::external_body]
fn random_byte() -> u8 {
    rand::random::<u8>()
}

/// One machine: memory, registers, call stack, timers, display, keys and the
/// beep latch. Created by [`Emu::new`]; all later mutation goes through the
/// operations below.
pub struct Emu {
    pc: u16,
    ram: Vec<u8>,
    screen: Vec<bool>,
    v_regs: Vec<u8>,
    i_reg: u16,
    sp: u16,
    stack: Vec<u16>,
    keys: Vec<bool>,
    dt: u8,
    st: u8,
    /// Latched true by the engine when the sound timer runs out; cleared only
    /// by the host.
    pub play_beep: bool,
}

impl View for Emu {
    type V = EmuView;

    closed spec fn view(&self) -> EmuView {
        EmuView {
            pc: self.pc,
            ram: self.ram@,
            screen: self.screen@,
            v_regs: self.v_regs@,
            i_reg: self.i_reg,
            sp: self.sp,
            stack: self.stack@,
            keys: self.keys@,
            dt: self.dt,
            st: self.st,
            play_beep: self.play_beep,
        }
    }
}

impl Emu {
    /// The structural invariant, carried by every operation.
    pub open spec fn wf(&self) -> bool {
        self@.wf()
    }

    /// A fresh machine: glyph table in memory, program counter at 512,
    /// everything else zeroed, display dark, no key pressed.
    pub fn new() -> (r: Self)
        ensures
            r@ == initial_view(),
            r.wf(),
    {
        let e = Emu {
            pc: 0x200,
            ram: initial_ram_vec(),
            screen: make_falses(2048),
            v_regs: make_zero_bytes(16),
            i_reg: 0,
            sp: 0,
            stack: make_zero_words(16),
            keys: make_falses(16),
            dt: 0,
            st: 0,
            play_beep: false,
        };
        proof {
            assert(e@ =~= initial_view());
        }
        e
    }

    /// Restore the exact creation-time state.
    pub fn reset(&mut self)
        ensures
            final(self)@ == initial_view(),
            final(self).wf(),
    {
        self.pc = 0x200;
        self.ram = initial_ram_vec();
        self.screen = make_falses(2048);
        self.v_regs = make_zero_bytes(16);
        self.i_reg = 0;
        self.sp = 0;
        self.stack = make_zero_words(16);
        self.keys = make_falses(16);
        self.dt = 0;
        self.st = 0;
        self.play_beep = false;
        proof {
            assert(self@ =~= initial_view());
        }
    }

    /// Copy a program into memory starting at address 512. The glyph table
    /// below 512 is never touched. Fails, changing nothing, exactly when the
    /// program would run past the end of memory.
    pub fn load(&mut self, program: &[u8]) -> (r: Result<(), Chip8Error>)
        requires
            old(self).wf(),
        ensures
            final(self).wf(),
            program@.len() <= 3584 ==> r == Ok::<(), Chip8Error>(()) && final(self)@ == (EmuView {
                ram: spec_load(old(self)@.ram, program@),
                ..old(self)@
            }),
            program@.len() > 3584 ==> r == Err::<(), Chip8Error>(Chip8Error::RomTooLarge)
                && final(self)@ == old(self)@,
    {
        if program.len() > 3584 {
            return Err(Chip8Error::RomTooLarge);
        }
        let mut k: usize = 0;
        while k < program.len()
            invariant
                old(self).wf(),
                self@ == (EmuView { ram: self@.ram, ..old(self)@ }),
                self@.ram.len() == 4096,
                k <= program@.len() <= 3584,
                forall|i: int| 512 <= i < 512 + k ==> self@.ram[i] == program@[i - 512],
                forall|i: int|
                    0 <= i < 4096 && !(512 <= i < 512 + k) ==> self@.ram[i] == old(self)@.ram[i],
            decreases program@.len() - k,
        {
            self.ram.set(512 + k, program[k]);
            k = k + 1;
        }
        proof {
            assert(self@.ram =~= spec_load(old(self)@.ram, program@));
            assert(self@ =~= (EmuView { ram: spec_load(old(self)@.ram, program@), ..old(self)@ }));
        }
        Ok(())
    }

    /// Record that key `idx` went down or up. Fails, changing nothing, exactly
    /// when `idx` is not a key of the 16-key surface.
    pub fn keypress(&mut self, idx: usize, pressed: bool) -> (r: Result<(), Chip8Error>)
        requires
            old(self).wf(),
        ensures
            final(self).wf(),
            idx < 16 ==> r == Ok::<(), Chip8Error>(()) && final(self)@ == (EmuView {
                keys: old(self)@.keys.update(idx as int, pressed),
                ..old(self)@
            }),
            idx >= 16 ==> r == Err::<(), Chip8Error>(Chip8Error::KeyIndexOutOfRange)
                && final(self)@ == old(self)@,
    {
        if idx >= 16 {
            return Err(Chip8Error::KeyIndexOutOfRange);
        }
        self.keys.set(idx, pressed);
        Ok(())
    }

    /// The display, row-major: pixel (x, y) is entry `x + 64 * y`.
    pub fn get_display(&self) -> (r: &[bool])
        ensures
            r@ == self@.screen,
    {
        self.screen.as_slice()
    }

    /// One timer-decay phase, as [`spec_tick_timers`] describes: nonzero
    /// timers count down by one and the beep latch is set when the sound
    /// timer runs out.
    pub fn tick_timers(&mut self)
        ensures
            final(self)@ == spec_tick_timers(old(self)@),
    {
        if self.dt > 0 {
            self.dt = self.dt - 1;
        }
        if self.st > 0 {
            if self.st == 1 {
                self.play_beep = true;
            }
            self.st = self.st - 1;
        }
    }

    /// Push a return address; the caller has checked for room.
    fn push(&mut self, val: u16)
        requires
            old(self).wf(),
            old(self)@.sp < 16,
        ensures
            final(self)@ == (EmuView {
                stack: old(self)@.stack.update(old(self)@.sp as int, val),
                sp: (old(self)@.sp + 1) as u16,
                ..old(self)@
            }),
    {
        self.stack.set(self.sp as usize, val);
        self.sp = self.sp + 1;
    }

    /// Pop the most recent return address; the caller has checked there is
    /// one.
    fn pop(&mut self) -> (r: u16)
        requires
            old(self).wf(),
            old(self)@.sp > 0,
        ensures
            final(self)@ == (EmuView { sp: (old(self)@.sp - 1) as u16, ..old(self)@ }),
            r == old(self)@.stack[old(self)@.sp - 1],
    {
        self.sp = self.sp - 1;
        self.stack[self.sp as usize]
    }

    /// Step the program counter past one instruction word, wrapping at the
    /// top of the 16-bit range.
    fn advance_pc(&mut self)
        ensures
            final(self)@ == (EmuView { pc: wrap16(old(self)@.pc + 2), ..old(self)@ }),
    {
        self.pc = (((self.pc as u32) + 2) % 0x10000) as u16;
    }

    /// Read the big-endian instruction word at the program counter and step
    /// past it.
    fn fetch(&mut self) -> (op: u16)
        requires
            old(self).wf(),
        ensures
            final(self)@ == (EmuView { pc: wrap16(old(self)@.pc + 2), ..old(self)@ }),
            op == spec_op(old(self)@),
    {
        let hi = self.ram[(self.pc as usize) % 4096];
        let lo = self.ram[((self.pc as usize) + 1) % 4096];
        let op = (hi as u16) * 256 + (lo as u16);
        self.advance_pc();
        op
    }

    /// The wait-for-key behaviour: store the lowest-numbered pressed key in
    /// register `x`, or rewind the program counter so the instruction is
    /// retried on the next step.
    fn wait_key(&mut self, x: usize)
        requires
            old(self).wf(),
            x < 16,
        ensures
            final(self).wf(),
            final(self)@ == (if first_pressed_from(old(self)@.keys, 0) == 16 {
                EmuView { pc: wrap16(old(self)@.pc - 2), ..old(self)@ }
            } else {
                EmuView {
                    v_regs: old(self)@.v_regs.update(
                        x as int,
                        first_pressed_from(old(self)@.keys, 0) as u8,
                    ),
                    ..old(self)@
                }
            }),
    {
        let mut i: usize = 0;
        while i < 16
            invariant
                i <= 16,
                old(self).wf(),
                x < 16,
                self@ == old(self)@,
                first_pressed_from(self@.keys, 0) == first_pressed_from(self@.keys, i as int),
            decreases 16 - i,
        {
            if self.keys[i] {
                self.v_regs.set(x, i as u8);
                return ;
            }
            i = i + 1;
        }
        self.pc = (((self.pc as u32) + 0x10000 - 2) % 0x10000) as u16;
        proof {
            vstd::arithmetic::div_mod::lemma_mod_add_multiples_vanish(
                old(self)@.pc - 2,
                0x10000,
            );
        }
    }

    /// Copy registers 0..=x into memory at the index register, wrapping
    /// addresses at the top of memory.
    fn copy_regs_to_ram(&mut self, x: usize)
        requires
            old(self).wf(),
            x < 16,
        ensures
            final(self).wf(),
            final(self)@ == (EmuView {
                ram: store_regs(old(self)@.ram, old(self)@.v_regs, old(self)@.i_reg, x as int),
                ..old(self)@
            }),
    {
        let i0 = self.i_reg as usize;
        let mut k: usize = 0;
        while k <= x
            invariant
                old(self).wf(),
                x < 16,
                k <= x + 1,
                i0 == old(self)@.i_reg,
                self@ == (EmuView { ram: self@.ram, ..old(self)@ }),
                self@.ram.len() == 4096,
                self@.ram == store_regs(
                    old(self)@.ram,
                    old(self)@.v_regs,
                    old(self)@.i_reg,
                    k - 1,
                ),
            decreases x + 1 - k,
        {
            let b = self.v_regs[k];
            self.ram.set((i0 + k) % 4096, b);
            k = k + 1;
        }
    }

    /// Copy memory at the index register into registers 0..=x, wrapping
    /// addresses at the top of memory.
    fn copy_ram_to_regs(&mut self, x: usize)
        requires
            old(self).wf(),
            x < 16,
        ensures
            final(self).wf(),
            final(self)@ == (EmuView {
                v_regs: load_regs(old(self)@.v_regs, old(self)@.ram, old(self)@.i_reg, x as int),
                ..old(self)@
            }),
    {
        let i0 = self.i_reg as usize;
        let mut k: usize = 0;
        while k <= x
            invariant
                old(self).wf(),
                x < 16,
                k <= x + 1,
                i0 == old(self)@.i_reg,
                self@ == (EmuView { v_regs: self@.v_regs, ..old(self)@ }),
                self@.v_regs.len() == 16,
                forall|t: int|
                    0 <= t < k ==> self@.v_regs[t] == byte_at(
                        old(self)@.ram,
                        old(self)@.i_reg + t,
                    ),
                forall|t: int| k <= t < 16 ==> self@.v_regs[t] == old(self)@.v_regs[t],
            decreases x + 1 - k,
        {
            let b = self.ram[(i0 + k) % 4096];
            self.v_regs.set(k, b);
            k = k + 1;
        }
        proof {
            assert(self@.v_regs =~= load_regs(
                old(self)@.v_regs,
                old(self)@.ram,
                old(self)@.i_reg,
                x as int,
            ));
        }
    }

    /// Execute one already-fetched instruction word, with `rnd` the byte the
    /// random-number instruction uses. Exactly the failures of
    /// [`spec_execute`] are reported, and a failing execution changes
    /// nothing.
    fn execute(&mut self, op: u16, rnd: u8) -> (res: Result<(), Chip8Error>)
        requires
            old(self).wf(),
        ensures
            final(self).wf(),
            match spec_execute(old(self)@, op, rnd) {
                Ok(v) => res == Ok::<(), Chip8Error>(()) && final(self)@ == v,
                Err(e) => res == Err::<(), Chip8Error>(e) && final(self)@ == old(self)@,
            },
    {
        proof {
            lemma_decode(op);
        }
        let d1 = op / 0x1000;
        let d2 = (op / 0x100) % 16;
        let d3 = (op / 16) % 16;
        let d4 = op % 16;
        let nn = (op % 256) as u8;
        let nnn = op % 4096;
        match (d1, d2, d3, d4) {
            (0, 0, 0, 0) => Ok(()),
            (0, 0, 0xE, 0) => {
                self.screen = make_falses(2048);
                proof {
                    assert(self@.screen =~= blank_screen());
                }
                Ok(())
            },
            (0, 0, 0xE, 0xE) => {
                if self.sp == 0 {
                    return Err(Chip8Error::StackUnderflow);
                }
                let a = self.pop();
                self.pc = a;
                Ok(())
            },
            (1, _, _, _) => {
                self.pc = nnn;
                Ok(())
            },
            (2, _, _, _) => {
                if self.sp >= 16 {
                    return Err(Chip8Error::StackOverflow);
                }
                let pc0 = self.pc;
                self.push(pc0);
                self.pc = nnn;
                Ok(())
            },
            (3, _, _, _) => {
                if self.v_regs[d2 as usize] == nn {
                    self.advance_pc();
                }
                Ok(())
            },
            (4, _, _, _) => {
                if self.v_regs[d2 as usize] != nn {
                    self.advance_pc();
                }
                Ok(())
            },
            (5, _, _, 0) => {
                if self.v_regs[d2 as usize] == self.v_regs[d3 as usize] {
                    self.advance_pc();
                }
                Ok(())
            },
            (6, _, _, _) => {
                self.v_regs.set(d2 as usize, nn);
                Ok(())
            },
            (7, _, _, _) => {
                let a = self.v_regs[d2 as usize];
                let v = (((a as u16) + (nn as u16)) % 256) as u8;
                self.v_regs.set(d2 as usize, v);
                Ok(())
            },
            (8, _, _, 0) => {
                let b = self.v_regs[d3 as usize];
                self.v_regs.set(d2 as usize, b);
                Ok(())
            },
            (8, _, _, 1) => {
                let a = self.v_regs[d2 as usize];
                let b = self.v_regs[d3 as usize];
                self.v_regs.set(d2 as usize, a | b);
                Ok(())
            },
            (8, _, _, 2) => {
                let a = self.v_regs[d2 as usize];
                let b = self.v_regs[d3 as usize];
                self.v_regs.set(d2 as usize, a & b);
                Ok(())
            },
            (8, _, _, 3) => {
                let a = self.v_regs[d2 as usize];
                let b = self.v_regs[d3 as usize];
                self.v_regs.set(d2 as usize, a ^ b);
                Ok(())
            },
            (8, _, _, 4) => {
                let a = self.v_regs[d2 as usize];
                let b = self.v_regs[d3 as usize];
                let sum: u16 = (a as u16) + (b as u16);
                self.v_regs.set(d2 as usize, (sum % 256) as u8);
                self.v_regs.set(15, if sum >= 256 { 1 } else { 0 });
                Ok(())
            },
            (8, _, _, 5) => {
                let a = self.v_regs[d2 as usize];
                let b = self.v_regs[d3 as usize];
                let v = (((a as u16) + 256 - (b as u16)) % 256) as u8;
                proof {
                    vstd::arithmetic::div_mod::lemma_mod_add_multiples_vanish(
                        a as int - b as int,
                        256,
                    );
                }
                self.v_regs.set(d2 as usize, v);
                self.v_regs.set(15, if a >= b { 1 } else { 0 });
                Ok(())
            },
            (8, _, _, 6) => {
                let a = self.v_regs[d2 as usize];
                self.v_regs.set(d2 as usize, a / 2);
                self.v_regs.set(15, a % 2);
                Ok(())
            },
            (8, _, _, 7) => {
                let a = self.v_regs[d2 as usize];
                let b = self.v_regs[d3 as usize];
                let v = (((b as u16) + 256 - (a as u16)) % 256) as u8;
                proof {
                    vstd::arithmetic::div_mod::lemma_mod_add_multiples_vanish(
                        b as int - a as int,
                        256,
                    );
                }
                self.v_regs.set(d2 as usize, v);
                self.v_regs.set(15, if b >= a { 1 } else { 0 });
                Ok(())
            },
            (8, _, _, 0xE) => {
                let a = self.v_regs[d2 as usize];
                let v = (((a as u16) * 2) % 256) as u8;
                self.v_regs.set(d2 as usize, v);
                self.v_regs.set(15, a / 128);
                Ok(())
            },
            (9, _, _, 0) => {
                if self.v_regs[d2 as usize] != self.v_regs[d3 as usize] {
                    self.advance_pc();
                }
                Ok(())
            },
            (0xA, _, _, _) => {
                self.i_reg = nnn;
                Ok(())
            },
            (0xB, _, _, _) => {
                self.pc = (self.v_regs[0] as u16) + nnn;
                Ok(())
            },
            (0xC, _, _, _) => {
                self.v_regs.set(d2 as usize, rnd & nn);
                Ok(())
            },
            (0xD, _, _, _) => {
                let x0 = self.v_regs[d2 as usize];
                let y0 = self.v_regs[d3 as usize];
                self.draw_sprite(x0, y0, d4 as u8);
                Ok(())
            },
            (0xE, _, 9, 0xE) => {
                let vx = self.v_regs[d2 as usize];
                if self.keys[(vx as usize) % 16] {
                    self.advance_pc();
                }
                Ok(())
            },
            (0xE, _, 0xA, 1) => {
                let vx = self.v_regs[d2 as usize];
                if !self.keys[(vx as usize) % 16] {
                    self.advance_pc();
                }
                Ok(())
            },
            (0xF, _, 0, 7) => {
                let t = self.dt;
                self.v_regs.set(d2 as usize, t);
                Ok(())
            },
            (0xF, _, 0, 0xA) => {
                self.wait_key(d2 as usize);
                Ok(())
            },
            (0xF, _, 1, 5) => {
                self.dt = self.v_regs[d2 as usize];
                Ok(())
            },
            (0xF, _, 1, 8) => {
                self.st = self.v_regs[d2 as usize];
                Ok(())
            },
            (0xF, _, 1, 0xE) => {
                let vx = self.v_regs[d2 as usize];
                self.i_reg = (((self.i_reg as u32) + (vx as u32)) % 0x10000) as u16;
                Ok(())
            },
            (0xF, _, 2, 9) => {
                let vx = self.v_regs[d2 as usize];
                self.i_reg = (vx as u16) * 5;
                Ok(())
            },
            (0xF, _, 3, 3) => {
                let vx = self.v_regs[d2 as usize];
                let i0 = self.i_reg as usize;
                let h = vx / 100;
                let t = (vx / 10) % 10;
                let o = vx % 10;
                self.ram.set(i0 % 4096, h);
                self.ram.set((i0 + 1) % 4096, t);
                self.ram.set((i0 + 2) % 4096, o);
                Ok(())
            },
            (0xF, _, 5, 5) => {
                self.copy_regs_to_ram(d2 as usize);
                Ok(())
            },
            (0xF, _, 6, 5) => {
                self.copy_ram_to_regs(d2 as usize);
                Ok(())
            },
            _ => Err(Chip8Error::UnknownOpcode(op)),
        }
    }

    /// One engine step: fetch the word at the program counter, execute it,
    /// then decay the timers; the whole step is [`spec_tick`] for the byte
    /// the random-number instruction drew. A step that fails — an unknown
    /// opcode, a call with a full stack, a return with an empty stack —
    /// reports which failure and leaves the state exactly as it was.
    pub fn tick(&mut self) -> (res: Result<(), Chip8Error>)
        requires
            old(self).wf(),
        ensures
            final(self).wf(),
            res matches Ok(()) ==> exists|b: u8|
                spec_tick(old(self)@, b) == Ok::<EmuView, Chip8Error>(final(self)@),
            res matches Err(e) ==> final(self)@ == old(self)@ && forall|b: u8|
                spec_tick(old(self)@, b) == Err::<EmuView, Chip8Error>(e),
    {
        let saved_pc = self.pc;
        let op = self.fetch();
        let rnd = random_byte();
        let r = self.execute(op, rnd);
        match r {
            Ok(()) => {
                self.tick_timers();
                proof {
                    assert(spec_tick(old(self)@, rnd) == Ok::<EmuView, Chip8Error>(self@));
                }
                Ok(())
            },
            Err(e) => {
                self.pc = saved_pc;
                proof {
                    assert(self@ =~= old(self)@);
                    let fetched = EmuView { pc: wrap16(old(self)@.pc + 2), ..old(self)@ };
                    assert forall|b: u8|
                        spec_tick(old(self)@, b) == Err::<EmuView, Chip8Error>(e) by {
                        assert(spec_execute(fetched, op, b) == Err::<EmuView, Chip8Error>(e));
                    }
                }
                Err(e)
            },
        }
    }

    /// Draw an `n`-row sprite read from memory at the index register at
    /// screen position (`x0`, `y0`). Each set sprite bit toggles its pixel,
    /// wrapping modulo 64 columns and 32 rows; the flag register reports,
    /// accumulated over the whole sprite, whether any lit pixel went dark.
    fn draw_sprite(&mut self, x0: u8, y0: u8, n: u8)
        requires
            old(self).wf(),
            n <= 15,
        ensures
            final(self).wf(),
            final(self)@ == (EmuView {
                screen: draw_screen_result(
                    old(self)@.screen,
                    old(self)@.ram,
                    old(self)@.i_reg,
                    x0,
                    y0,
                    n as int,
                ),
                v_regs: old(self)@.v_regs.update(
                    15,
                    if draw_collision(
                        old(self)@.screen,
                        old(self)@.ram,
                        old(self)@.i_reg,
                        x0,
                        y0,
                        n as int,
                    ) {
                        1u8
                    } else {
                        0u8
                    },
                ),
                ..old(self)@
            }),
    {
        let ghost s0 = self@;
        let mut flipped = false;
        let mut r: usize = 0;
        while r < n as usize
            invariant
                s0.wf(),
                r <= n as int,
                n <= 15,
                self@ == (EmuView { screen: self@.screen, ..s0 }),
                self@.screen.len() == 2048,
                forall|p: int|
                    0 <= p < 2048 ==> self@.screen[p] == (s0.screen[p] != draw_flip_upto(
                        s0.ram,
                        s0.i_reg,
                        x0,
                        y0,
                        r as int,
                        0,
                        p,
                    )),
                flipped == draw_collision_upto(s0.screen, s0.ram, s0.i_reg, x0, y0, r as int, 0),
            decreases n as int - r,
        {
            let row: u8 = self.ram[((self.i_reg as usize) + r) % 4096];
            let mut j: usize = 0;
            while j < 8
                invariant
                    s0.wf(),
                    r < n as int,
                    n <= 15,
                    j <= 8,
                    row == byte_at(s0.ram, s0.i_reg + r as int),
                    self@ == (EmuView { screen: self@.screen, ..s0 }),
                    self@.screen.len() == 2048,
                    forall|p: int|
                        0 <= p < 2048 ==> self@.screen[p] == (s0.screen[p] != draw_flip_upto(
                            s0.ram,
                            s0.i_reg,
                            x0,
                            y0,
                            r as int,
                            j as int,
                            p,
                        )),
                    flipped == draw_collision_upto(
                        s0.screen,
                        s0.ram,
                        s0.i_reg,
                        x0,
                        y0,
                        r as int,
                        j as int,
                    ),
                decreases 8 - j,
            {
                let k: u8 = 7 - (j as u8);
                if (row >> k) & 1u8 == 1u8 {
                    assert(sprite_bit(row, j as u8));
                    let x: usize = ((x0 as usize) + j) % 64;
                    let y: usize = ((y0 as usize) + r) % 32;
                    proof {
                        lemma_pixel_decompose(x as int, y as int);
                        lemma_wrap_decode(y0 as int, r as int, 32);
                        lemma_wrap_decode(x0 as int, j as int, 64);
                    }
                    let idx: usize = x + 64 * y;
                    let cur = self.screen[idx];
                    let ghost was_flipped = flipped;
                    self.screen.set(idx, !cur);
                    flipped = flipped || cur;
                    proof {
                        let q = idx as int;
                        assert((q / 64 - y0) % 32 == r as int);
                        assert((q % 64 - x0) % 64 == j as int);
                        assert(!draw_flip_upto(s0.ram, s0.i_reg, x0, y0, r as int, j as int, q));
                        assert(cur == s0.screen[q]);
                        assert forall|p: int| 0 <= p < 2048 && p != q implies draw_flip_upto(
                            s0.ram,
                            s0.i_reg,
                            x0,
                            y0,
                            r as int,
                            j as int + 1,
                            p,
                        ) == draw_flip_upto(
                            s0.ram,
                            s0.i_reg,
                            x0,
                            y0,
                            r as int,
                            j as int,
                            p,
                        ) by {
                            if draw_flip_upto(s0.ram, s0.i_reg, x0, y0, r as int, j as int + 1, p)
                                != draw_flip_upto(
                                s0.ram,
                                s0.i_reg,
                                x0,
                                y0,
                                r as int,
                                j as int,
                                p,
                            ) {
                                lemma_wrap_encode(y0 as int, p / 64, 32);
                                lemma_wrap_encode(x0 as int, p % 64, 64);
                                vstd::arithmetic::div_mod::lemma_fundamental_div_mod(p, 64);
                                assert(false);
                            }
                        }
                        assert(draw_flip_upto(s0.ram, s0.i_reg, x0, y0, r as int, j as int + 1, q));
                        // the running flag still matches: only pixel q changed status
                        if flipped {
                            if was_flipped {
                                let p0 = choose|p: int|
                                    0 <= p < 2048 && #[trigger] draw_flip_upto(
                                        s0.ram,
                                        s0.i_reg,
                                        x0,
                                        y0,
                                        r as int,
                                        j as int,
                                        p,
                                    ) && s0.screen[p];
                                assert(draw_flip_upto(
                                    s0.ram,
                                    s0.i_reg,
                                    x0,
                                    y0,
                                    r as int,
                                    j as int + 1,
                                    p0,
                                ) && s0.screen[p0]);
                            } else {
                                assert(draw_flip_upto(
                                    s0.ram,
                                    s0.i_reg,
                                    x0,
                                    y0,
                                    r as int,
                                    j as int + 1,
                                    q,
                                ) && s0.screen[q]);
                            }
                            assert(draw_collision_upto(
                                s0.screen,
                                s0.ram,
                                s0.i_reg,
                                x0,
                                y0,
                                r as int,
                                j as int + 1,
                            ));
                        } else {
                            if draw_collision_upto(
                                s0.screen,
                                s0.ram,
                                s0.i_reg,
                                x0,
                                y0,
                                r as int,
                                j as int + 1,
                            ) {
                                let p0 = choose|p: int|
                                    0 <= p < 2048 && #[trigger] draw_flip_upto(
                                        s0.ram,
                                        s0.i_reg,
                                        x0,
                                        y0,
                                        r as int,
                                        j as int + 1,
                                        p,
                                    ) && s0.screen[p];
                                if p0 != q {
                                    assert(draw_flip_upto(
                                        s0.ram,
                                        s0.i_reg,
                                        x0,
                                        y0,
                                        r as int,
                                        j as int,
                                        p0,
                                    ));
                                    assert(draw_collision_upto(
                                        s0.screen,
                                        s0.ram,
                                        s0.i_reg,
                                        x0,
                                        y0,
                                        r as int,
                                        j as int,
                                    ));
                                }
                                assert(false);
                            }
                        }
                    }
                } else {
                    proof {
                        assert(!sprite_bit(row, j as u8));
                        assert forall|p: int| 0 <= p < 2048 implies draw_flip_upto(
                            s0.ram,
                            s0.i_reg,
                            x0,
                            y0,
                            r as int,
                            j as int + 1,
                            p,
                        ) == #[trigger] draw_flip_upto(
                            s0.ram,
                            s0.i_reg,
                            x0,
                            y0,
                            r as int,
                            j as int,
                            p,
                        ) by {
                            if draw_flip_upto(s0.ram, s0.i_reg, x0, y0, r as int, j as int + 1, p)
                                != draw_flip_upto(
                                s0.ram,
                                s0.i_reg,
                                x0,
                                y0,
                                r as int,
                                j as int,
                                p,
                            ) {
                                assert((p / 64 - y0) % 32 == r as int);
                                assert((p % 64 - x0) % 64 == j as int);
                                assert(sprite_bit(byte_at(s0.ram, s0.i_reg + r as int), j as u8));
                                assert(false);
                            }
                        }
                        lemma_collision_congruent(
                            s0.screen,
                            s0.ram,
                            s0.i_reg,
                            x0,
                            y0,
                            r as int,
                            j as int + 1,
                            r as int,
                            j as int,
                        );
                    }
                }
                j = j + 1;
            }
            proof {
                assert forall|p: int| 0 <= p < 2048 implies draw_flip_upto(
                    s0.ram,
                    s0.i_reg,
                    x0,
                    y0,
                    r as int + 1,
                    0,
                    p,
                ) == #[trigger] draw_flip_upto(s0.ram, s0.i_reg, x0, y0, r as int, 8, p) by {}
                lemma_collision_congruent(
                    s0.screen,
                    s0.ram,
                    s0.i_reg,
                    x0,
                    y0,
                    r as int + 1,
                    0,
                    r as int,
                    8,
                );
            }
            r = r + 1;
        }
        if flipped {
            self.v_regs.set(15, 1);
        } else {
            self.v_regs.set(15, 0);
        }
        proof {
            assert forall|p: int| 0 <= p < 2048 implies draw_flip_upto(
                s0.ram,
                s0.i_reg,
                x0,
                y0,
                n as int,
                0,
                p,
            ) == #[trigger] draw_flip(s0.ram, s0.i_reg, x0, y0, n as int, p) by {}
            lemma_collision_full(s0.screen, s0.ram, s0.i_reg, x0, y0, n as int);
            assert(self@.screen =~= draw_screen_result(
                s0.screen,
                s0.ram,
                s0.i_reg,
                x0,
                y0,
                n as int,
            ));
        }
    }

    /// Register `i` of the register file.
    pub fn register(&self, i: usize) -> (r: u8)
        requires
            self.wf(),
            i < 16,
        ensures
            r == self@.v_regs[i as int],
    {
        self.v_regs[i]
    }

    /// The program counter.
    pub fn program_counter(&self) -> (r: u16)
        ensures
            r == self@.pc,
    {
        self.pc
    }

    /// The index register.
    pub fn index_register(&self) -> (r: u16)
        ensures
            r == self@.i_reg,
    {
        self.i_reg
    }

    /// The stack pointer: how many return addresses are on the call stack.
    pub fn stack_pointer(&self) -> (r: u16)
        ensures
            r == self@.sp,
    {
        self.sp
    }

    /// Stack entry `i`. Entries below the stack pointer are live.
    pub fn stack_entry(&self, i: usize) -> (r: u16)
        requires
            self.wf(),
            i < 16,
        ensures
            r == self@.stack[i as int],
    {
        self.stack[i]
    }

    /// The delay timer.
    pub fn delay_timer(&self) -> (r: u8)
        ensures
            r == self@.dt,
    {
        self.dt
    }

    /// The sound timer.
    pub fn sound_timer(&self) -> (r: u8)
        ensures
            r == self@.st,
    {
        self.st
    }
}

} // verus!
