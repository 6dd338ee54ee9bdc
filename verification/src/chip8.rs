//! The executable machine.

use crate::semantics::blank_display;
use crate::semantics::byte_at;
use crate::semantics::collision_prefix;
use crate::semantics::covers_prefix;
use crate::semantics::draw_collision;
use crate::semantics::draw_display;
use crate::semantics::draw_spec;
use crate::semantics::lemma_collision_same;
use crate::semantics::lemma_step_wf;
use crate::semantics::lemma_prefix_full;
use crate::semantics::lemma_prefix_row;
use crate::semantics::lemma_prefix_step;
use crate::semantics::px_on;
use crate::semantics::row_shift;
use crate::semantics::sprite_covers;
use crate::semantics::font;
use crate::semantics::init_mem;
use crate::semantics::init_spec;
use crate::semantics::instr_spec;
use crate::semantics::key_down_spec;
use crate::semantics::key_up_spec;
use crate::semantics::load_block;
use crate::semantics::low12;
use crate::semantics::low_byte;
use crate::semantics::mem_index;
use crate::semantics::nib_a;
use crate::semantics::nib_b;
use crate::semantics::nib_c;
use crate::semantics::nib_d;
use crate::semantics::step_spec;
use crate::semantics::store_block;
use crate::semantics::tick_spec;
use crate::semantics::word_at;
use crate::semantics::wrap16;
use crate::semantics::MachineSpec;
use crate::semantics::DISPLAY_SIZE;
use crate::semantics::LOAD_ADDR;
use crate::semantics::MAX_PROGRAM_LEN;
use crate::semantics::MEM_SIZE;
use vstd::prelude::*;

verus! {

/// Whether execution runs freely or is blocked waiting for a key press.
#[derive(Clone, Copy, Debug, PartialEq, Eq, Structural)]
pub enum State {
    /// Instructions are fetched and executed normally.
    Default,
    /// A key-wait instruction was executed with target register `x`; fetch is
    /// suspended until a key goes from released to pressed.
    GetKey(u8),
}

/// A fatal fault surfaced by [`Chip8::cycle`]; the machine has no defined
/// continuation after one, and the driver decides how to shut down.
#[derive(Clone, Copy, Debug, PartialEq, Eq, Structural)]
pub enum Fault {
    /// The fetched word matches no instruction pattern.
    UnrecognizedInstruction(u16),
    /// A return instruction ran with an empty call stack.
    StackUnderflow,
}

/// The CHIP-8 machine: 4096 bytes of memory, sixteen 8-bit registers, a
/// 16-bit index register and program counter, a call stack, two countdown
/// timers, a 64x32 one-bit display and sixteen key flags.
pub struct Chip8 {
    mem: Vec<u8>,
    display: Vec<bool>,
    pc: u16,
    i: u16,
    stack: Vec<u16>,
    delay_timer: u8,
    sound_timer: u8,
    vs: Vec<u8>,
    key_pressed: Vec<bool>,
    state: State,
}

impl View for Chip8 {
    type V = MachineSpec;

    closed spec fn view(&self) -> MachineSpec {
        MachineSpec {
            mem: self.mem@,
            display: self.display@,
            pc: self.pc,
            i: self.i,
            stack: self.stack@,
            delay_timer: self.delay_timer,
            sound_timer: self.sound_timer,
            vs: self.vs@,
            keys: self.key_pressed@,
            state: self.state,
        }
    }
}

impl Chip8 {
    /// The machine's invariant: its ghost image is well formed.
    pub open spec fn inv(&self) -> bool {
        self@.wf()
    }

    /// Read the byte at `addr`, reduced into memory range.
    pub fn read8(&self, addr: u16) -> (r: u8)
        requires
            self.inv(),
        ensures
            r == byte_at(self@.mem, addr as int),
    {
        self.mem[(addr as usize) % MEM_SIZE]
    }

    /// Read the big-endian word at `addr`.
    fn read16(&self, addr: u16) -> (r: u16)
        requires
            self.inv(),
        ensures
            r == word_at(self@.mem, addr as int),
    {
        let first = self.read8(addr) as u16;
        let second = self.read8(addr.wrapping_add(1)) as u16;
        proof {
            assert(mem_index(addr as int + 1) == mem_index((addr as int + 1) % 0x10000));
        }
        first * 0x100 + second
    }

    /// Read register `x`.
    pub fn vr(&self, x: u8) -> (r: u8)
        requires
            self.inv(),
            x < 16,
        ensures
            r == self@.vs[x as int],
    {
        self.vs[x as usize]
    }

    /// Write `v` to register `x`.
    fn vw(&mut self, x: u8, v: u8)
        requires
            old(self).inv(),
            x < 16,
        ensures
            final(self).inv(),
            final(self)@ == (MachineSpec { vs: old(self)@.vs.update(x as int, v), ..old(self)@ }),
    {
        self.vs.set(x as usize, v);
    }

    /// Fetch the byte at the program counter and advance the counter by one,
    /// wrapping modulo 2^16.
    #[allow(dead_code)]
    fn fetch8(&mut self) -> (r: u8)
        requires
            old(self).inv(),
        ensures
            final(self).inv(),
            r == byte_at(old(self)@.mem, old(self)@.pc as int),
            final(self)@ == (MachineSpec { pc: wrap16(old(self)@.pc + 1), ..old(self)@ }),
    {
        let r = self.read8(self.pc);
        self.pc = ((self.pc as u32 + 1) % 0x10000) as u16;
        r
    }

    /// Fetch the word at the program counter and advance the counter by two,
    /// wrapping modulo 2^16.
    fn fetch16(&mut self) -> (r: u16)
        requires
            old(self).inv(),
        ensures
            final(self).inv(),
            r == word_at(old(self)@.mem, old(self)@.pc as int),
            final(self)@ == (MachineSpec { pc: wrap16(old(self)@.pc + 2), ..old(self)@ }),
    {
        let r = self.read16(self.pc);
        self.pc = ((self.pc as u32 + 2) % 0x10000) as u16;
        r
    }

    /// Clear the display buffer to all-off.
    fn clear_display(&mut self)
        requires
            old(self).inv(),
        ensures
            final(self).inv(),
            final(self)@ == (MachineSpec { display: blank_display(), ..old(self)@ }),
    {
        self.display = false_vec(DISPLAY_SIZE);
    }

    /// Draw the `height`-row sprite read from memory at the index register,
    /// with its origin at (`x_offset`, `y_offset`): the origin wraps modulo
    /// the display size, every lit sprite bit toggles its cell (cells past
    /// the right or bottom edge are clipped), and VF reports whether a lit
    /// cell went dark.
    #[verifier::loop_isolation(false)]
    #[verifier::rlimit(60)]
    fn draw(&mut self, x_offset: u8, y_offset: u8, height: u8)
        requires
            old(self).inv(),
        ensures
            final(self).inv(),
            final(self)@ == draw_spec(old(self)@, x_offset, y_offset, height),
    {
        let ghost m0 = old(self)@;
        let xo = x_offset % 64;
        let yo = y_offset % 32;
        let ghost xoi = xo as int;
        let ghost yoi = yo as int;
        self.vw(0xf, 0);
        let mut dy: u8 = 0;
        while dy < height
            invariant
                self.inv(),
                dy <= height,
                self@.mem == m0.mem,
                self@.pc == m0.pc,
                self@.i == m0.i,
                self@.stack == m0.stack,
                self@.delay_timer == m0.delay_timer,
                self@.sound_timer == m0.sound_timer,
                self@.keys == m0.keys,
                self@.state == m0.state,
                forall|p: int|
                    0 <= p < DISPLAY_SIZE ==> self@.display[p] == (if covers_prefix(
                        m0.mem,
                        m0.i,
                        xoi,
                        yoi,
                        dy as int,
                        0,
                        p % 64,
                        p / 64,
                    ) {
                        !m0.display[p]
                    } else {
                        m0.display[p]
                    }),
                self@.vs == m0.vs.update(
                    0xf,
                    if collision_prefix(m0.display, m0.mem, m0.i, xoi, yoi, dy as int, 0) {
                        1u8
                    } else {
                        0u8
                    },
                ),
            decreases height - dy,
        {
            let y = yo as usize + dy as usize;
            let tile = self.read8(((self.i as usize + dy as usize) % MEM_SIZE) as u16);
            proof {
                assert(mem_index((m0.i as int + dy as int) % (MEM_SIZE as int)) == mem_index(
                    m0.i as int + dy as int,
                ));
                assert(tile == byte_at(m0.mem, m0.i as int + dy as int));
            }
            let mut t: u8 = tile;
            let mut dx: u8 = 0;
            while dx < 8
                invariant
                    self.inv(),
                    dx <= 8,
                    t == row_shift(tile, dx as int),
                    self@.mem == m0.mem,
                    self@.pc == m0.pc,
                    self@.i == m0.i,
                    self@.stack == m0.stack,
                    self@.delay_timer == m0.delay_timer,
                    self@.sound_timer == m0.sound_timer,
                    self@.keys == m0.keys,
                    self@.state == m0.state,
                    forall|p: int|
                        0 <= p < DISPLAY_SIZE ==> self@.display[p] == (if covers_prefix(
                            m0.mem,
                            m0.i,
                            xoi,
                            yoi,
                            dy as int,
                            dx as int,
                            p % 64,
                            p / 64,
                        ) {
                            !m0.display[p]
                        } else {
                            m0.display[p]
                        }),
                    self@.vs == m0.vs.update(
                        0xf,
                        if collision_prefix(m0.display, m0.mem, m0.i, xoi, yoi, dy as int, dx as int) {
                            1u8
                        } else {
                            0u8
                        },
                    ),
                decreases 8 - dx,
            {
                let ghost pre_display = self@.display;
                let ghost pre_vs = self@.vs;
                let x = xo as usize + dx as usize;
                let pixel = t >= 0x80;
                let visible = pixel && x < 64 && y < 32;
                let mut hit = false;
                if visible {
                    let idx = y * 64 + x;
                    let cur = self.display[idx];
                    hit = cur;
                    if cur {
                        self.vw(0xf, 1);
                    }
                    self.display.set(idx, !cur);
                }
                proof {
                    let dyi = dy as int;
                    let dxi = dx as int;
                    let px = xoi + dxi;
                    let py = yoi + dyi;
                    let cell = py * 64 + px;
                    assert(px_on(tile, dxi) == pixel);
                    assert forall|p: int| 0 <= p < DISPLAY_SIZE implies #[trigger] covers_prefix(
                        m0.mem,
                        m0.i,
                        xoi,
                        yoi,
                        dyi,
                        dxi + 1,
                        p % 64,
                        p / 64,
                    ) == (covers_prefix(m0.mem, m0.i, xoi, yoi, dyi, dxi, p % 64, p / 64) || (pixel
                        && p == cell && px < 64)) by {
                        lemma_prefix_step(m0.mem, m0.i, xoi, yoi, dyi, dxi, p % 64, p / 64);
                        assert(p == (p / 64) * 64 + (p % 64));
                        if p % 64 == px && p / 64 == py {
                            assert(p == cell);
                        }
                        if p == cell && px < 64 {
                            assert(0 <= py < 32);
                            assert(p % 64 == px && p / 64 == py);
                        }
                    }
                    if !visible {
                        assert forall|p: int| 0 <= p < DISPLAY_SIZE implies #[trigger] covers_prefix(
                            m0.mem,
                            m0.i,
                            xoi,
                            yoi,
                            dyi,
                            dxi + 1,
                            p % 64,
                            p / 64,
                        ) == covers_prefix(m0.mem, m0.i, xoi, yoi, dyi, dxi, p % 64, p / 64) by {
                            if pixel && p == cell && px < 64 {
                                assert(py >= 32);
                                assert(p / 64 < 32);
                                assert(p % 64 == px && p / 64 == py);
                            }
                        }
                        lemma_collision_same(
                            m0.display,
                            m0.mem,
                            m0.i,
                            xoi,
                            yoi,
                            dyi,
                            dxi + 1,
                            dyi,
                            dxi,
                        );
                    } else {
                        assert(0 <= px < 64 && 0 <= py < 32);
                        assert(0 <= cell < DISPLAY_SIZE);
                        assert(cell % 64 == px && cell / 64 == py);
                        assert(!covers_prefix(m0.mem, m0.i, xoi, yoi, dyi, dxi, px, py));
                        assert(pre_display[cell] == m0.display[cell]);
                        assert(hit == m0.display[cell]);
                        assert(self@.display == pre_display.update(cell, !hit));
                        if hit {
                            assert(covers_prefix(m0.mem, m0.i, xoi, yoi, dyi, dxi + 1, cell % 64, cell / 64));
                            assert(collision_prefix(m0.display, m0.mem, m0.i, xoi, yoi, dyi, dxi + 1));
                        } else {
                            if collision_prefix(m0.display, m0.mem, m0.i, xoi, yoi, dyi, dxi + 1) {
                                let p = choose|p: int|
                                    0 <= p < m0.display.len() && covers_prefix(
                                        m0.mem,
                                        m0.i,
                                        xoi,
                                        yoi,
                                        dyi,
                                        dxi + 1,
                                        p % 64,
                                        p / 64,
                                    ) && m0.display[p];
                                assert(covers_prefix(m0.mem, m0.i, xoi, yoi, dyi, dxi, p % 64, p / 64));
                                assert(collision_prefix(m0.display, m0.mem, m0.i, xoi, yoi, dyi, dxi));
                            }
                            if collision_prefix(m0.display, m0.mem, m0.i, xoi, yoi, dyi, dxi) {
                                let p = choose|p: int|
                                    0 <= p < m0.display.len() && covers_prefix(
                                        m0.mem,
                                        m0.i,
                                        xoi,
                                        yoi,
                                        dyi,
                                        dxi,
                                        p % 64,
                                        p / 64,
                                    ) && m0.display[p];
                                assert(covers_prefix(m0.mem, m0.i, xoi, yoi, dyi, dxi + 1, p % 64, p / 64));
                                assert(collision_prefix(m0.display, m0.mem, m0.i, xoi, yoi, dyi, dxi + 1));
                            }
                        }
                    }
                }
                t = (t % 0x80) * 2;
                proof {
                    assert(row_shift(tile, dx as int + 1) == ((row_shift(tile, dx as int) % 0x80)
                        * 2) as u8);
                }
                dx += 1;
            }
            proof {
                assert forall|p: int| 0 <= p < DISPLAY_SIZE implies #[trigger] covers_prefix(
                    m0.mem,
                    m0.i,
                    xoi,
                    yoi,
                    dy as int,
                    8,
                    p % 64,
                    p / 64,
                ) == covers_prefix(m0.mem, m0.i, xoi, yoi, dy as int + 1, 0, p % 64, p / 64) by {
                    lemma_prefix_row(m0.mem, m0.i, xoi, yoi, dy as int, p % 64, p / 64);
                }
                lemma_collision_same(
                    m0.display,
                    m0.mem,
                    m0.i,
                    xoi,
                    yoi,
                    dy as int,
                    8,
                    dy as int + 1,
                    0,
                );
            }
            dy += 1;
        }
        proof {
            let n = height as int;
            assert forall|p: int| 0 <= p < DISPLAY_SIZE implies #[trigger] covers_prefix(
                m0.mem,
                m0.i,
                xoi,
                yoi,
                n,
                0,
                p % 64,
                p / 64,
            ) == sprite_covers(m0.mem, m0.i, xoi, yoi, n, p % 64, p / 64) by {
                lemma_prefix_full(m0.mem, m0.i, xoi, yoi, n, p % 64, p / 64);
            }
            if collision_prefix(m0.display, m0.mem, m0.i, xoi, yoi, n, 0) {
                let p = choose|p: int|
                    0 <= p < m0.display.len() && covers_prefix(
                        m0.mem,
                        m0.i,
                        xoi,
                        yoi,
                        n,
                        0,
                        p % 64,
                        p / 64,
                    ) && m0.display[p];
                assert(sprite_covers(m0.mem, m0.i, xoi, yoi, n, p % 64, p / 64));
                assert(draw_collision(m0, xoi, yoi, n));
            }
            if draw_collision(m0, xoi, yoi, n) {
                let p = choose|p: int|
                    0 <= p < m0.display.len() && sprite_covers(
                        m0.mem,
                        m0.i,
                        xoi,
                        yoi,
                        n,
                        p % 64,
                        p / 64,
                    ) && m0.display[p];
                assert(covers_prefix(m0.mem, m0.i, xoi, yoi, n, 0, p % 64, p / 64));
                assert(collision_prefix(m0.display, m0.mem, m0.i, xoi, yoi, n, 0));
            }
            assert(self@.display =~= draw_display(m0, xoi, yoi, n));
            assert(self@ =~= draw_spec(m0, x_offset, y_offset, height));
        }
    }

    /// Execute one instruction with `rb` standing for the byte the random
    /// source produced: exactly the step function applied to the machine.
    /// Faults are surfaced in the result, with the machine left as the fetch
    /// left it.
    #[verifier::loop_isolation(false)]
    #[verifier::rlimit(100)]
    pub fn cycle_with(&mut self, rb: u8) -> (r: Result<(), Fault>)
        requires
            old(self).inv(),
        ensures
            final(self).inv(),
            final(self)@ == step_spec(old(self)@, rb).0,
            r == step_spec(old(self)@, rb).1,
    {
        match self.state {
            State::GetKey(_) => {
                return Ok(());
            },
            State::Default => {},
        }
        let w = self.fetch16();
        let ghost m1 = self@;
        let ghost target = instr_spec(m1, w, rb);
        let a = (w / 0x1000) as u8;
        let x = ((w / 0x100) % 0x10) as u8;
        let y = ((w / 0x10) % 0x10) as u8;
        let d = (w % 0x10) as u8;
        let nn = (w % 0x100) as u8;
        let nnn = w % 0x1000;
        proof {
            assert(a == nib_a(w) && x == nib_b(w) && y == nib_c(w) && d == nib_d(w));
            assert(nn == low_byte(w) && nnn == low12(w));
            assert(x < 16 && y < 16 && d < 16);
        }
        let r: Result<(), Fault> = if w == 0x00E0 {
            self.clear_display();
            proof {
                assert(self@ =~= target.0);
                assert(target.1 == Ok::<(), Fault>(()));
            }
            Ok(())
        } else if w == 0x00EE {
            if self.stack.len() == 0 {
                proof {
                    assert(self@ =~= target.0);
                    assert(target.1 == Err::<(), Fault>(Fault::StackUnderflow));
                }
                Err(Fault::StackUnderflow)
            } else {
                let addr = self.stack.pop().unwrap();
                self.pc = addr;
                proof {
                    assert(self@ =~= target.0);
                    assert(target.1 == Ok::<(), Fault>(()));
                }
                Ok(())
            }
        } else if a == 0x1 {
            self.pc = nnn;
            proof {
                assert(self@ =~= target.0);
                assert(target.1 == Ok::<(), Fault>(()));
            }
            Ok(())
        } else if a == 0x2 {
            self.stack.push(self.pc);
            self.pc = nnn;
            proof {
                assert(self@ =~= target.0);
                assert(target.1 == Ok::<(), Fault>(()));
            }
            Ok(())
        } else if a == 0x3 {
            if self.vr(x) == nn {
                self.pc = ((self.pc as u32 + 2) % 0x10000) as u16;
            }
            proof {
                assert(self@ =~= target.0);
                assert(target.1 == Ok::<(), Fault>(()));
            }
            Ok(())
        } else if a == 0x4 {
            if self.vr(x) != nn {
                self.pc = ((self.pc as u32 + 2) % 0x10000) as u16;
            }
            proof {
                assert(self@ =~= target.0);
                assert(target.1 == Ok::<(), Fault>(()));
            }
            Ok(())
        } else if a == 0x5 && d == 0x0 {
            if self.vr(x) == self.vr(y) {
                self.pc = ((self.pc as u32 + 2) % 0x10000) as u16;
            }
            proof {
                assert(self@ =~= target.0);
                assert(target.1 == Ok::<(), Fault>(()));
            }
            Ok(())
        } else if a == 0x6 {
            self.vw(x, nn);
            proof {
                assert(self@ =~= target.0);
                assert(target.1 == Ok::<(), Fault>(()));
            }
            Ok(())
        } else if a == 0x7 {
            let sum = self.vr(x) as u16 + nn as u16;
            self.vw(x, (sum % 0x100) as u8);
            proof {
                assert(self@ =~= target.0);
                assert(target.1 == Ok::<(), Fault>(()));
            }
            Ok(())
        } else if a == 0x8 && d == 0x0 {
            let vy = self.vr(y);
            self.vw(x, vy);
            proof {
                assert(self@ =~= target.0);
                assert(target.1 == Ok::<(), Fault>(()));
            }
            Ok(())
        } else if a == 0x8 && d == 0x1 {
            let v = self.vr(x) | self.vr(y);
            self.vw(x, v);
            self.vw(0xf, 0);
            proof {
                assert(self@ =~= target.0);
                assert(target.1 == Ok::<(), Fault>(()));
            }
            Ok(())
        } else if a == 0x8 && d == 0x2 {
            let v = self.vr(x) & self.vr(y);
            self.vw(x, v);
            self.vw(0xf, 0);
            proof {
                assert(self@ =~= target.0);
                assert(target.1 == Ok::<(), Fault>(()));
            }
            Ok(())
        } else if a == 0x8 && d == 0x3 {
            let v = self.vr(x) ^ self.vr(y);
            self.vw(x, v);
            self.vw(0xf, 0);
            proof {
                assert(self@ =~= target.0);
                assert(target.1 == Ok::<(), Fault>(()));
            }
            Ok(())
        } else if a == 0x8 && d == 0x4 {
            let sum = self.vr(x) as u16 + self.vr(y) as u16;
            self.vw(x, (sum % 0x100) as u8);
            self.vw(0xf, if sum > 0xff { 1 } else { 0 });
            proof {
                assert(self@ =~= target.0);
                assert(target.1 == Ok::<(), Fault>(()));
            }
            Ok(())
        } else if a == 0x8 && d == 0x5 {
            let vx = self.vr(x);
            let vy = self.vr(y);
            let unborrowed = vx > vy;
            self.vw(x, ((vx as u16 + 0x100 - vy as u16) % 0x100) as u8);
            self.vw(0xf, if unborrowed { 1 } else { 0 });
            proof {
                assert(self@ =~= target.0);
                assert(target.1 == Ok::<(), Fault>(()));
            }
            Ok(())
        } else if a == 0x8 && d == 0x6 {
            let vy = self.vr(y);
            self.vw(x, vy / 2);
            self.vw(0xf, vy % 2);
            proof {
                assert(self@ =~= target.0);
                assert(target.1 == Ok::<(), Fault>(()));
            }
            Ok(())
        } else if a == 0x8 && d == 0x7 {
            let vx = self.vr(x);
            let vy = self.vr(y);
            let unborrowed = vy > vx;
            self.vw(x, ((vy as u16 + 0x100 - vx as u16) % 0x100) as u8);
            self.vw(0xf, if unborrowed { 1 } else { 0 });
            proof {
                assert(self@ =~= target.0);
                assert(target.1 == Ok::<(), Fault>(()));
            }
            Ok(())
        } else if a == 0x8 && d == 0xe {
            let vy = self.vr(y);
            self.vw(x, (vy % 0x80) * 2);
            self.vw(0xf, if vy >= 0x80 { 1 } else { 0 });
            proof {
                assert(self@ =~= target.0);
                assert(target.1 == Ok::<(), Fault>(()));
            }
            Ok(())
        } else if a == 0x9 && d == 0x0 {
            if self.vr(x) != self.vr(y) {
                self.pc = ((self.pc as u32 + 2) % 0x10000) as u16;
            }
            proof {
                assert(self@ =~= target.0);
                assert(target.1 == Ok::<(), Fault>(()));
            }
            Ok(())
        } else if a == 0xa {
            self.i = nnn;
            proof {
                assert(self@ =~= target.0);
                assert(target.1 == Ok::<(), Fault>(()));
            }
            Ok(())
        } else if a == 0xb {
            self.pc = self.vr(0) as u16 + nnn;
            proof {
                assert(self@ =~= target.0);
                assert(target.1 == Ok::<(), Fault>(()));
            }
            Ok(())
        } else if a == 0xc {
            self.vw(x, rb & nn);
            proof {
                assert(self@ =~= target.0);
                assert(target.1 == Ok::<(), Fault>(()));
            }
            Ok(())
        } else if a == 0xd {
            let vx = self.vr(x);
            let vy = self.vr(y);
            self.draw(vx, vy, d);
            proof {
                assert(self@ =~= target.0);
                assert(target.1 == Ok::<(), Fault>(()));
            }
            Ok(())
        } else if a == 0xe && nn == 0x9e {
            let k = self.vr(x) % 16;
            if self.key(k) {
                self.pc = ((self.pc as u32 + 2) % 0x10000) as u16;
            }
            proof {
                assert(self@ =~= target.0);
                assert(target.1 == Ok::<(), Fault>(()));
            }
            Ok(())
        } else if a == 0xe && nn == 0xa1 {
            let k = self.vr(x) % 16;
            if !self.key(k) {
                self.pc = ((self.pc as u32 + 2) % 0x10000) as u16;
            }
            proof {
                assert(self@ =~= target.0);
                assert(target.1 == Ok::<(), Fault>(()));
            }
            Ok(())
        } else if a == 0xf && nn == 0x07 {
            let v = self.delay_timer;
            self.vw(x, v);
            proof {
                assert(self@ =~= target.0);
                assert(target.1 == Ok::<(), Fault>(()));
            }
            Ok(())
        } else if a == 0xf && nn == 0x0a {
            self.state = State::GetKey(x);
            proof {
                assert(self@ =~= target.0);
                assert(target.1 == Ok::<(), Fault>(()));
            }
            Ok(())
        } else if a == 0xf && nn == 0x15 {
            self.delay_timer = self.vr(x);
            proof {
                assert(self@ =~= target.0);
                assert(target.1 == Ok::<(), Fault>(()));
            }
            Ok(())
        } else if a == 0xf && nn == 0x18 {
            self.sound_timer = self.vr(x);
            proof {
                assert(self@ =~= target.0);
                assert(target.1 == Ok::<(), Fault>(()));
            }
            Ok(())
        } else if a == 0xf && nn == 0x1e {
            self.i = ((self.i as u32 + self.vr(x) as u32) % 0x10000) as u16;
            proof {
                assert(self@ =~= target.0);
                assert(target.1 == Ok::<(), Fault>(()));
            }
            Ok(())
        } else if a == 0xf && nn == 0x29 {
            self.i = 5 * self.vr(x) as u16;
            proof {
                assert(self@ =~= target.0);
                assert(target.1 == Ok::<(), Fault>(()));
            }
            Ok(())
        } else if a == 0xf && nn == 0x33 {
            let vx = self.vr(x);
            let base = self.i as usize;
            self.mem.set(base % MEM_SIZE, vx / 100);
            self.mem.set((base + 1) % MEM_SIZE, (vx / 10) % 10);
            self.mem.set((base + 2) % MEM_SIZE, vx % 10);
            proof {
                assert(self@ =~= target.0);
                assert(target.1 == Ok::<(), Fault>(()));
            }
            Ok(())
        } else if a == 0xf && nn == 0x55 {
            let mut k: usize = 0;
            while k <= x as usize
                invariant
                    self.inv(),
                    k <= x as usize + 1,
                    self@ == (MachineSpec {
                        mem: store_block(m1.mem, m1.vs, m1.i, k as int - 1),
                        ..m1
                    }),
                decreases x as usize + 1 - k,
            {
                let v = self.vs[k];
                self.mem.set((self.i as usize + k) % MEM_SIZE, v);
                k += 1;
            }
            self.i = ((self.i as u32 + x as u32 + 1) % 0x10000) as u16;
            proof {
                assert(self@ =~= target.0);
                assert(target.1 == Ok::<(), Fault>(()));
            }
            Ok(())
        } else if a == 0xf && nn == 0x65 {
            let mut k: usize = 0;
            while k <= x as usize
                invariant
                    self.inv(),
                    k <= x as usize + 1,
                    self@ == (MachineSpec {
                        vs: load_block(m1.vs, m1.mem, m1.i, k as int - 1),
                        ..m1
                    }),
                decreases x as usize + 1 - k,
            {
                let b = self.read8(((self.i as usize + k) % MEM_SIZE) as u16);
                proof {
                    assert(mem_index((m1.i as int + k as int) % (MEM_SIZE as int)) == mem_index(
                        m1.i as int + k as int,
                    ));
                }
                self.vs.set(k, b);
                k += 1;
            }
            self.i = ((self.i as u32 + x as u32 + 1) % 0x10000) as u16;
            proof {
                assert(self@ =~= target.0);
                assert(target.1 == Ok::<(), Fault>(()));
            }
            Ok(())
        } else {
            proof {
                assert(self@ =~= target.0);
                assert(target.1 == Err::<(), Fault>(Fault::UnrecognizedInstruction(w)));
            }
            Err(Fault::UnrecognizedInstruction(w))
        };
        proof {
            assert(step_spec(old(self)@, rb) == target);
            lemma_step_wf(old(self)@, rb);
        }
        r
    }

    /// Perform one execution step, drawing the byte for the random-mask
    /// instruction from the process-wide random source: for some byte, this
    /// call is exactly the step function. While a key wait blocks fetch the
    /// call changes nothing. A fault is surfaced to the caller, which
    /// decides shutdown policy; the machine state stays as the fetch left
    /// it.
    pub fn cycle(&mut self) -> (r: Result<(), Fault>)
        requires
            old(self).inv(),
        ensures
            final(self).inv(),
            exists|rb: u8|
                final(self)@ == (#[trigger] step_spec(old(self)@, rb)).0 && r == step_spec(
                    old(self)@,
                    rb,
                ).1,
    {
        let rb = random_byte();
        self.cycle_with(rb)
    }

    /// The display buffer, indexed `y * 64 + x`.
    pub fn display(&self) -> (r: &Vec<bool>)
        ensures
            r@ == self@.display,
    {
        &self.display
    }

    /// The program counter.
    pub fn pc(&self) -> (r: u16)
        ensures
            r == self@.pc,
    {
        self.pc
    }

    /// The index register.
    pub fn i(&self) -> (r: u16)
        ensures
            r == self@.i,
    {
        self.i
    }

    /// The delay timer.
    pub fn delay(&self) -> (r: u8)
        ensures
            r == self@.delay_timer,
    {
        self.delay_timer
    }

    /// The sound timer.
    pub fn sound(&self) -> (r: u8)
        ensures
            r == self@.sound_timer,
    {
        self.sound_timer
    }

    /// The execution state.
    pub fn state(&self) -> (r: State)
        ensures
            r == self@.state,
    {
        self.state
    }

    /// Whether key `k` is currently pressed.
    pub fn key(&self, k: u8) -> (r: bool)
        requires
            self.inv(),
            k < 16,
        ensures
            r == self@.keys[k as int],
    {
        self.key_pressed[k as usize]
    }

    /// How many return addresses the call stack holds.
    pub fn stack_depth(&self) -> (r: usize)
        ensures
            r == self@.stack.len(),
    {
        self.stack.len()
    }

    /// Create a machine with the program image `rom` loaded: the font sits at
    /// the bottom of memory, the program at the load address, the program
    /// counter at the load address, and all other state is zeroed, cleared
    /// and released. The image must fit below the end of memory.
    pub fn new(rom: Vec<u8>) -> (c: Chip8)
        requires
            rom@.len() <= MAX_PROGRAM_LEN,
        ensures
            c.inv(),
            c@ == init_spec(rom@),
    {
        let font_rows = font_bytes();
        let mut mem: Vec<u8> = Vec::new();
        let mut k: usize = 0;
        while k < MEM_SIZE
            invariant
                mem@.len() == k,
                k <= MEM_SIZE,
                forall|p: int| 0 <= p < k ==> mem@[p] == 0u8,
            decreases MEM_SIZE - k,
        {
            mem.push(0);
            k += 1;
        }
        let mut k: usize = 0;
        while k < 80
            invariant
                mem@.len() == MEM_SIZE,
                k <= 80,
                font_rows@ == font(),
                forall|p: int| 0 <= p < k ==> mem@[p] == font()[p],
                forall|p: int| k <= p < MEM_SIZE ==> mem@[p] == 0u8,
            decreases 80 - k,
        {
            mem.set(k, font_rows[k]);
            k += 1;
        }
        let mut k: usize = 0;
        while k < rom.len()
            invariant
                mem@.len() == MEM_SIZE,
                k <= rom@.len() <= MAX_PROGRAM_LEN,
                forall|p: int| 0 <= p < 80 ==> mem@[p] == font()[p],
                forall|p: int|
                    LOAD_ADDR <= p < LOAD_ADDR + k ==> mem@[p] == rom@[p - LOAD_ADDR],
                forall|p: int| 80 <= p < LOAD_ADDR ==> mem@[p] == 0u8,
                forall|p: int| LOAD_ADDR + k <= p < MEM_SIZE ==> mem@[p] == 0u8,
            decreases rom@.len() - k,
        {
            mem.set(0x200 + k, rom[k]);
            k += 1;
        }
        let c = Chip8 {
            mem,
            display: false_vec(DISPLAY_SIZE),
            pc: LOAD_ADDR,
            i: 0,
            stack: Vec::new(),
            delay_timer: 0,
            sound_timer: 0,
            vs: zero_vec(16),
            key_pressed: false_vec(16),
            state: State::Default,
        };
        proof {
            assert(c@.mem =~= init_mem(rom@));
            assert(c@ =~= init_spec(rom@));
        }
        c
    }

    /// Send a key-down event. A rising edge — the key was not pressed —
    /// resolves a pending key wait: the key's value is written into the
    /// wait's target register and execution resumes. A held key changes
    /// nothing.
    pub fn down(&mut self, v: u8)
        requires
            old(self).inv(),
            v < 16,
        ensures
            final(self).inv(),
            final(self)@ == key_down_spec(old(self)@, v),
    {
        if !self.key_pressed[v as usize] {
            match self.state {
                State::GetKey(x) => {
                    self.vw(x, v);
                    self.state = State::Default;
                },
                State::Default => {},
            }
            self.key_pressed.set(v as usize, true);
        }
    }

    /// Send a key-up event: the key is marked released; a pending key wait
    /// is never resolved by a release.
    pub fn up(&mut self, v: u8)
        requires
            old(self).inv(),
            v < 16,
        ensures
            final(self).inv(),
            final(self)@ == key_up_spec(old(self)@, v),
    {
        self.key_pressed.set(v as usize, false);
    }

    /// Tick the delay and sound timers: each goes down by one if positive
    /// and never below zero. The external driver calls this at its chosen
    /// cadence, independently of instruction stepping.
    pub fn decrease_timers(&mut self)
        requires
            old(self).inv(),
        ensures
            final(self).inv(),
            final(self)@ == tick_spec(old(self)@),
    {
        if self.delay_timer > 0 {
            self.delay_timer = self.delay_timer - 1;
        }
        if self.sound_timer > 0 {
            self.sound_timer = self.sound_timer - 1;
        }
    }
}

/// Relies on `rand::random`: one byte from the thread-local generator.
/// Nothing is assumed of the value; every caller must be correct for every
/// byte that can come back.
#[verifier::external_body]
fn random_byte() -> u8 {
    rand::random::<u8>()
}

/// A vector of `n` cleared pixels or key flags.
fn false_vec(n: usize) -> (r: Vec<bool>)
    ensures
        r@ == Seq::new(n as nat, |p: int| false),
{
    let mut v: Vec<bool> = Vec::new();
    let mut k: usize = 0;
    while k < n
        invariant
            v@.len() == k,
            k <= n,
            forall|p: int| 0 <= p < k ==> v@[p] == false,
        decreases n - k,
    {
        v.push(false);
        k += 1;
    }
    proof {
        assert(v@ =~= Seq::new(n as nat, |p: int| false));
    }
    v
}

/// A vector of `n` zeroed registers.
fn zero_vec(n: usize) -> (r: Vec<u8>)
    ensures
        r@ == Seq::new(n as nat, |p: int| 0u8),
{
    let mut v: Vec<u8> = Vec::new();
    let mut k: usize = 0;
    while k < n
        invariant
            v@.len() == k,
            k <= n,
            forall|p: int| 0 <= p < k ==> v@[p] == 0u8,
        decreases n - k,
    {
        v.push(0);
        k += 1;
    }
    proof {
        assert(v@ =~= Seq::new(n as nat, |p: int| 0u8));
    }
    v
}

/// The built-in font rows, as executable data.
fn font_bytes() -> (r: Vec<u8>)
    ensures
        r@ == font(),
{
    let v: Vec<u8> = vec![
        0xF0, 0x90, 0x90, 0x90, 0xF0,
        0x20, 0x60, 0x20, 0x20, 0x70,
        0xF0, 0x10, 0xF0, 0x80, 0xF0,
        0xF0, 0x10, 0xF0, 0x10, 0xF0,
        0x90, 0x90, 0xF0, 0x10, 0x10,
        0xF0, 0x80, 0xF0, 0x10, 0xF0,
        0xF0, 0x80, 0xF0, 0x90, 0xF0,
        0xF0, 0x10, 0x20, 0x40, 0x40,
        0xF0, 0x90, 0xF0, 0x90, 0xF0,
        0xF0, 0x90, 0xF0, 0x10, 0xF0,
        0xF0, 0x90, 0xF0, 0x90, 0x90,
        0xE0, 0x90, 0xE0, 0x90, 0xE0,
        0xF0, 0x80, 0x80, 0x80, 0xF0,
        0xE0, 0x90, 0x90, 0x90, 0xE0,
        0xF0, 0x80, 0xF0, 0x80, 0xF0,
        0xF0, 0x80, 0xF0, 0x80, 0x80,
    ];
    proof {
        assert(v@ =~= font());
    }
    v
}

} // verus!
