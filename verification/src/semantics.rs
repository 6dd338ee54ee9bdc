//! The mathematical model of the machine.
//!
//! [`MachineSpec`] is the ghost image of the executable machine, and
//! [`step_spec`] says exactly what one execution step does to it: fetch the
//! 16-bit word at the program counter, advance the counter by two, and apply
//! the decoded instruction. The executable code in [`crate::chip8`] is proved
//! to agree with these functions on every input.
//!
//! Memory addressing policy: every address that reaches memory is reduced
//! modulo the memory size (4096), so a program that computes an out-of-range
//! address reads and writes the wrapped location deterministically instead of
//! faulting. The program counter and index register wrap modulo 2^16, and a
//! key index taken from a register is reduced modulo 16.

use crate::chip8::Fault;
use crate::chip8::State;
use vstd::prelude::*;

verus! {

/// Number of addressable memory bytes.
pub const MEM_SIZE: usize = 4096;

/// Number of pixels in the display buffer.
pub const DISPLAY_SIZE: usize = 2048;

/// Address at which a program image is loaded, and initial program counter.
pub const LOAD_ADDR: u16 = 0x200;

/// Largest program image that fits between the load address and the end of
/// memory.
pub const MAX_PROGRAM_LEN: usize = 3584;

/// The ghost image of the whole machine state.
#[verifier::ext_equal]
pub ghost struct MachineSpec {
    /// The 4096 memory bytes.
    pub mem: Seq<u8>,
    /// The 64x32 display buffer, row-major, indexed `y * 64 + x`.
    pub display: Seq<bool>,
    /// The program counter.
    pub pc: u16,
    /// The index register.
    pub i: u16,
    /// The call stack of return addresses, most recent last.
    pub stack: Seq<u16>,
    /// The delay timer.
    pub delay_timer: u8,
    /// The sound timer.
    pub sound_timer: u8,
    /// The sixteen general registers V0..VF.
    pub vs: Seq<u8>,
    /// The sixteen key-pressed flags.
    pub keys: Seq<bool>,
    /// Whether execution runs freely or is blocked waiting for a key.
    pub state: State,
}

impl MachineSpec {
    /// Well-formedness: the fixed-size parts have their sizes, and a blocking
    /// key wait always targets one of the sixteen registers.
    pub open spec fn wf(self) -> bool {
        &&& self.mem.len() == MEM_SIZE
        &&& self.display.len() == DISPLAY_SIZE
        &&& self.vs.len() == 16
        &&& self.keys.len() == 16
        &&& match self.state {
            State::Default => true,
            State::GetKey(x) => x < 16,
        }
    }
}

/// Reduce a 16-bit quantity that may have overflowed back into `u16` range.
pub open spec fn wrap16(n: int) -> u16 {
    (n % 0x10000) as u16
}

/// Reduce an address into memory range.
pub open spec fn mem_index(a: int) -> int {
    a % (MEM_SIZE as int)
}

/// The memory byte at an address (reduced into range).
pub open spec fn byte_at(mem: Seq<u8>, a: int) -> u8 {
    mem[mem_index(a)]
}

/// The big-endian 16-bit word at an address.
pub open spec fn word_at(mem: Seq<u8>, a: int) -> u16 {
    (byte_at(mem, a) * 0x100 + byte_at(mem, a + 1)) as u16
}

/// Highest nibble of an instruction word.
pub open spec fn nib_a(w: u16) -> u8 {
    (w / 0x1000) as u8
}

/// Second nibble of an instruction word: the register index `x`.
pub open spec fn nib_b(w: u16) -> u8 {
    ((w / 0x100) % 0x10) as u8
}

/// Third nibble of an instruction word: the register index `y`.
pub open spec fn nib_c(w: u16) -> u8 {
    ((w / 0x10) % 0x10) as u8
}

/// Lowest nibble of an instruction word.
pub open spec fn nib_d(w: u16) -> u8 {
    (w % 0x10) as u8
}

/// Low byte of an instruction word: the immediate `nn`.
pub open spec fn low_byte(w: u16) -> u8 {
    (w % 0x100) as u8
}

/// Low 12 bits of an instruction word: the address `nnn`.
pub open spec fn low12(w: u16) -> u16 {
    w % 0x1000
}

/// The machine with register `x` set to `v`.
pub open spec fn set_v(m: MachineSpec, x: u8, v: u8) -> MachineSpec {
    MachineSpec { vs: m.vs.update(x as int, v), ..m }
}

/// The machine with the following instruction skipped when `cond` holds.
pub open spec fn skip_if(m: MachineSpec, cond: bool) -> MachineSpec {
    if cond {
        MachineSpec { pc: wrap16(m.pc + 2), ..m }
    } else {
        m
    }
}

/// A sprite row after its leading `dx` bits have been shifted out.
pub open spec fn row_shift(row: u8, dx: int) -> u8
    decreases dx,
{
    if dx <= 0 {
        row
    } else {
        ((row_shift(row, dx - 1) % 0x80) * 2) as u8
    }
}

/// Whether bit `dx` of a sprite row is set, counting from the most
/// significant bit.
pub open spec fn px_on(row: u8, dx: int) -> bool {
    row_shift(row, dx) >= 0x80
}

/// Whether an `n`-row sprite read from memory at `i`, drawn with its origin
/// at `(xo, yo)`, toggles the display cell `(px, py)`. Cells outside the
/// sprite's 8-column window or below its last row are untouched; the sprite
/// is clipped at the display edge because only cells with `px < 64` and
/// `py < 32` are ever asked about.
pub open spec fn sprite_covers(
    mem: Seq<u8>,
    i: u16,
    xo: int,
    yo: int,
    n: int,
    px: int,
    py: int,
) -> bool {
    &&& xo <= px < xo + 8
    &&& yo <= py < yo + n
    &&& px_on(byte_at(mem, i + (py - yo)), px - xo)
}

/// The display buffer after the sprite toggles its cells.
pub open spec fn draw_display(m: MachineSpec, xo: int, yo: int, n: int) -> Seq<bool> {
    Seq::new(
        m.display.len(),
        |p: int|
            if sprite_covers(m.mem, m.i, xo, yo, n, p % 64, p / 64) {
                !m.display[p]
            } else {
                m.display[p]
            },
    )
}

/// Whether the sprite toggles off some cell that was on before the draw:
/// the collision condition that sets VF.
pub open spec fn draw_collision(m: MachineSpec, xo: int, yo: int, n: int) -> bool {
    exists|p: int|
        0 <= p < m.display.len() && sprite_covers(m.mem, m.i, xo, yo, n, p % 64, p / 64)
            && m.display[p]
}

/// Whether the cell `(px, py)` is toggled by the part of the sprite already
/// traversed in row-major order: the first `rows` full rows, then the first
/// `cols` cells of row `rows`. With `cols == 0` this is exactly
/// [`sprite_covers`] for an `rows`-row sprite.
pub open spec fn covers_prefix(
    mem: Seq<u8>,
    i: u16,
    xo: int,
    yo: int,
    rows: int,
    cols: int,
    px: int,
    py: int,
) -> bool {
    let dx = px - xo;
    let dy = py - yo;
    &&& 0 <= dx < 8
    &&& 0 <= dy
    &&& (dy < rows || (dy == rows && dx < cols))
    &&& px_on(byte_at(mem, i + dy), dx)
}

/// Whether the traversed part of the sprite has toggled off a lit cell.
pub open spec fn collision_prefix(
    display: Seq<bool>,
    mem: Seq<u8>,
    i: u16,
    xo: int,
    yo: int,
    rows: int,
    cols: int,
) -> bool {
    exists|p: int|
        0 <= p < display.len() && covers_prefix(mem, i, xo, yo, rows, cols, p % 64, p / 64)
            && display[p]
}

/// The whole effect of the draw instruction: the origin wraps modulo the
/// display size, covered cells toggle, and VF reports a collision.
pub open spec fn draw_spec(m: MachineSpec, vx: u8, vy: u8, n: u8) -> MachineSpec {
    let xo = (vx % 64) as int;
    let yo = (vy % 32) as int;
    MachineSpec {
        display: draw_display(m, xo, yo, n as int),
        vs: m.vs.update(0xf, if draw_collision(m, xo, yo, n as int) { 1u8 } else { 0u8 }),
        ..m
    }
}

/// Memory after registers `V0..=Vk` are stored at consecutive addresses from
/// `i` on, each address reduced into memory range.
pub open spec fn store_block(mem: Seq<u8>, vs: Seq<u8>, i: u16, k: int) -> Seq<u8>
    decreases k + 1,
{
    if k < 0 {
        mem
    } else {
        store_block(mem, vs, i, k - 1).update(mem_index(i + k), vs[k])
    }
}

/// Registers after `V0..=Vk` are loaded from consecutive addresses from `i`
/// on, each address reduced into memory range.
pub open spec fn load_block(vs: Seq<u8>, mem: Seq<u8>, i: u16, k: int) -> Seq<u8>
    decreases k + 1,
{
    if k < 0 {
        vs
    } else {
        load_block(vs, mem, i, k - 1).update(k, byte_at(mem, i + k))
    }
}

/// Memory after the decimal digits of `v` (hundreds, tens, ones) are written
/// at `i`, `i + 1`, `i + 2`.
pub open spec fn bcd_write(mem: Seq<u8>, i: u16, v: u8) -> Seq<u8> {
    mem.update(mem_index(i as int), v / 100).update(mem_index(i as int + 1), (v / 10) % 10).update(
        mem_index(i as int + 2),
        v % 10,
    )
}

/// An all-off display buffer.
pub open spec fn blank_display() -> Seq<bool> {
    Seq::new(DISPLAY_SIZE as nat, |p: int| false)
}

/// The effect of the instruction word `w` on the machine `m`, whose program
/// counter has already advanced past `w`. `rb` is the byte the random source
/// produced, used only by the random-mask instruction. Returns the next
/// machine and `Err` for the two fatal faults, on which `m` is left as it
/// stands after the fetch.
pub open spec fn instr_spec(m: MachineSpec, w: u16, rb: u8) -> (MachineSpec, Result<(), Fault>) {
    let a = nib_a(w);
    let x = nib_b(w);
    let y = nib_c(w);
    let d = nib_d(w);
    let nn = low_byte(w);
    let nnn = low12(w);
    let vx = m.vs[x as int];
    let vy = m.vs[y as int];
    if w == 0x00E0 {
        (MachineSpec { display: blank_display(), ..m }, Ok(()))
    } else if w == 0x00EE {
        if m.stack.len() == 0 {
            (m, Err(Fault::StackUnderflow))
        } else {
            (MachineSpec { pc: m.stack.last(), stack: m.stack.drop_last(), ..m }, Ok(()))
        }
    } else if a == 0x1 {
        (MachineSpec { pc: nnn, ..m }, Ok(()))
    } else if a == 0x2 {
        (MachineSpec { stack: m.stack.push(m.pc), pc: nnn, ..m }, Ok(()))
    } else if a == 0x3 {
        (skip_if(m, vx == nn), Ok(()))
    } else if a == 0x4 {
        (skip_if(m, vx != nn), Ok(()))
    } else if a == 0x5 && d == 0x0 {
        (skip_if(m, vx == vy), Ok(()))
    } else if a == 0x6 {
        (set_v(m, x, nn), Ok(()))
    } else if a == 0x7 {
        (set_v(m, x, ((vx + nn) % 0x100) as u8), Ok(()))
    } else if a == 0x8 && d == 0x0 {
        (set_v(m, x, vy), Ok(()))
    } else if a == 0x8 && d == 0x1 {
        (set_v(set_v(m, x, vx | vy), 0xf, 0), Ok(()))
    } else if a == 0x8 && d == 0x2 {
        (set_v(set_v(m, x, vx & vy), 0xf, 0), Ok(()))
    } else if a == 0x8 && d == 0x3 {
        (set_v(set_v(m, x, vx ^ vy), 0xf, 0), Ok(()))
    } else if a == 0x8 && d == 0x4 {
        (
            set_v(
                set_v(m, x, ((vx + vy) % 0x100) as u8),
                0xf,
                if vx + vy > 0xff { 1u8 } else { 0u8 },
            ),
            Ok(()),
        )
    } else if a == 0x8 && d == 0x5 {
        (
            set_v(set_v(m, x, ((vx + 0x100 - vy) % 0x100) as u8), 0xf, if vx > vy { 1u8 } else { 0u8 }),
            Ok(()),
        )
    } else if a == 0x8 && d == 0x6 {
        (set_v(set_v(m, x, vy / 2), 0xf, vy % 2), Ok(()))
    } else if a == 0x8 && d == 0x7 {
        (
            set_v(set_v(m, x, ((vy + 0x100 - vx) % 0x100) as u8), 0xf, if vy > vx { 1u8 } else { 0u8 }),
            Ok(()),
        )
    } else if a == 0x8 && d == 0xe {
        (set_v(set_v(m, x, ((vy % 0x80) * 2) as u8), 0xf, if vy >= 0x80 { 1u8 } else { 0u8 }), Ok(()))
    } else if a == 0x9 && d == 0x0 {
        (skip_if(m, vx != vy), Ok(()))
    } else if a == 0xa {
        (MachineSpec { i: nnn, ..m }, Ok(()))
    } else if a == 0xb {
        (MachineSpec { pc: (m.vs[0] + nnn) as u16, ..m }, Ok(()))
    } else if a == 0xc {
        (set_v(m, x, rb & nn), Ok(()))
    } else if a == 0xd {
        (draw_spec(m, vx, vy, d), Ok(()))
    } else if a == 0xe && nn == 0x9e {
        (skip_if(m, m.keys[(vx % 16) as int]), Ok(()))
    } else if a == 0xe && nn == 0xa1 {
        (skip_if(m, !m.keys[(vx % 16) as int]), Ok(()))
    } else if a == 0xf && nn == 0x07 {
        (set_v(m, x, m.delay_timer), Ok(()))
    } else if a == 0xf && nn == 0x0a {
        (MachineSpec { state: State::GetKey(x), ..m }, Ok(()))
    } else if a == 0xf && nn == 0x15 {
        (MachineSpec { delay_timer: vx, ..m }, Ok(()))
    } else if a == 0xf && nn == 0x18 {
        (MachineSpec { sound_timer: vx, ..m }, Ok(()))
    } else if a == 0xf && nn == 0x1e {
        (MachineSpec { i: wrap16(m.i + vx), ..m }, Ok(()))
    } else if a == 0xf && nn == 0x29 {
        (MachineSpec { i: (5 * vx) as u16, ..m }, Ok(()))
    } else if a == 0xf && nn == 0x33 {
        (MachineSpec { mem: bcd_write(m.mem, m.i, vx), ..m }, Ok(()))
    } else if a == 0xf && nn == 0x55 {
        (
            MachineSpec { mem: store_block(m.mem, m.vs, m.i, x as int), i: wrap16(m.i + x + 1), ..m },
            Ok(()),
        )
    } else if a == 0xf && nn == 0x65 {
        (
            MachineSpec { vs: load_block(m.vs, m.mem, m.i, x as int), i: wrap16(m.i + x + 1), ..m },
            Ok(()),
        )
    } else {
        (m, Err(Fault::UnrecognizedInstruction(w)))
    }
}

/// One execution step: a no-op while a key wait blocks fetch, otherwise the
/// word at the program counter is fetched, the counter advances by two, and
/// the instruction is applied.
pub open spec fn step_spec(pre: MachineSpec, rb: u8) -> (MachineSpec, Result<(), Fault>) {
    match pre.state {
        State::GetKey(_) => (pre, Ok(())),
        State::Default => {
            let w = word_at(pre.mem, pre.pc as int);
            instr_spec(MachineSpec { pc: wrap16(pre.pc + 2), ..pre }, w, rb)
        },
    }
}

/// The effect of a key-down event: a no-op for a key already held; for a
/// released key, the key is marked pressed, and if the machine was blocked
/// waiting for a key this rising edge writes the key into the target
/// register and resumes execution.
pub open spec fn key_down_spec(m: MachineSpec, k: u8) -> MachineSpec {
    if m.keys[k as int] {
        m
    } else {
        let resumed = match m.state {
            State::GetKey(x) => MachineSpec {
                vs: m.vs.update(x as int, k),
                state: State::Default,
                ..m
            },
            State::Default => m,
        };
        MachineSpec { keys: resumed.keys.update(k as int, true), ..resumed }
    }
}

/// The effect of a key-up event: the key is marked released and nothing else
/// changes; in particular a key wait is never resolved by a release.
pub open spec fn key_up_spec(m: MachineSpec, k: u8) -> MachineSpec {
    MachineSpec { keys: m.keys.update(k as int, false), ..m }
}

/// The effect of one timer tick: each timer that is positive goes down by
/// one, and neither goes below zero.
pub open spec fn tick_spec(m: MachineSpec) -> MachineSpec {
    MachineSpec {
        delay_timer: if m.delay_timer > 0 {
            (m.delay_timer - 1) as u8
        } else {
            0
        },
        sound_timer: if m.sound_timer > 0 {
            (m.sound_timer - 1) as u8
        } else {
            0
        },
        ..m
    }
}

/// The built-in font: sixteen glyphs of five rows each, for the hexadecimal
/// digits 0 through F.
pub open spec fn font() -> Seq<u8> {
    seq![
        0xF0u8, 0x90, 0x90, 0x90, 0xF0,
        0x20, 0x60, 0x20, 0x20, 0x70,
        0xF0, 0x10, 0xF0, 0x80, 0xF0,
        0xF0, 0x10, 0xF0, 0x10, 0xF0,
        0x90, 0x90, 0xF0, 0x10, 0x10,
        0xF0, 0x80, 0xF0, 0x10, 0xF0,
        0xF0, 0x80, 0xF0, 0x90, 0xF0,
        0xF0, 0x10, 0x20, 0x40, 0x40,
        0xF0, 0x90, 0xF0, 0x90, 0xF0,
        0xF0, 0x90, 0xF0, 0x10, 0xF0,
        0xF0, 0x90, 0xF0, 0x90, 0x90,
        0xE0, 0x90, 0xE0, 0x90, 0xE0,
        0xF0, 0x80, 0x80, 0x80, 0xF0,
        0xE0, 0x90, 0x90, 0x90, 0xE0,
        0xF0, 0x80, 0xF0, 0x80, 0xF0,
        0xF0, 0x80, 0xF0, 0x80, 0x80,
    ]
}

/// Memory as construction leaves it: the font at address 0, the program
/// image at the load address, zero everywhere else.
pub open spec fn init_mem(rom: Seq<u8>) -> Seq<u8> {
    Seq::new(
        MEM_SIZE as nat,
        |a: int|
            if a < 80 {
                font()[a]
            } else if LOAD_ADDR <= a < LOAD_ADDR + rom.len() {
                rom[a - LOAD_ADDR]
            } else {
                0u8
            },
    )
}

/// The machine as construction leaves it: memory holds the font and the
/// program, the program counter sits at the load address, and everything
/// else is zeroed, cleared and released.
pub open spec fn init_spec(rom: Seq<u8>) -> MachineSpec {
    MachineSpec {
        mem: init_mem(rom),
        display: blank_display(),
        pc: LOAD_ADDR,
        i: 0,
        stack: Seq::empty(),
        delay_timer: 0,
        sound_timer: 0,
        vs: Seq::new(16, |x: int| 0u8),
        keys: Seq::new(16, |k: int| false),
        state: State::Default,
    }
}

/// Extending a traversal prefix by one cell adds exactly the cell
/// `(xo + cols, yo + rows)`, when its sprite bit is lit.
pub proof fn lemma_prefix_step(
    mem: Seq<u8>,
    i: u16,
    xo: int,
    yo: int,
    rows: int,
    cols: int,
    px: int,
    py: int,
)
    requires
        0 <= cols < 8,
        0 <= rows,
    ensures
        covers_prefix(mem, i, xo, yo, rows, cols + 1, px, py) == (covers_prefix(
            mem,
            i,
            xo,
            yo,
            rows,
            cols,
            px,
            py,
        ) || (px == xo + cols && py == yo + rows && px_on(byte_at(mem, i + rows), cols))),
{
}

/// A fully traversed row extends the prefix to the next row.
pub proof fn lemma_prefix_row(mem: Seq<u8>, i: u16, xo: int, yo: int, rows: int, px: int, py: int)
    ensures
        covers_prefix(mem, i, xo, yo, rows, 8, px, py) == covers_prefix(
            mem,
            i,
            xo,
            yo,
            rows + 1,
            0,
            px,
            py,
        ),
{
}

/// A prefix of all `n` rows covers exactly what the sprite covers.
pub proof fn lemma_prefix_full(mem: Seq<u8>, i: u16, xo: int, yo: int, n: int, px: int, py: int)
    ensures
        covers_prefix(mem, i, xo, yo, n, 0, px, py) == sprite_covers(mem, i, xo, yo, n, px, py),
{
}

/// Two traversal prefixes that toggle the same cells see the same collision.
pub proof fn lemma_collision_same(
    display: Seq<bool>,
    mem: Seq<u8>,
    i: u16,
    xo: int,
    yo: int,
    rows1: int,
    cols1: int,
    rows2: int,
    cols2: int,
)
    requires
        forall|p: int|
            0 <= p < display.len() ==> #[trigger] covers_prefix(
                mem,
                i,
                xo,
                yo,
                rows1,
                cols1,
                p % 64,
                p / 64,
            ) == covers_prefix(mem, i, xo, yo, rows2, cols2, p % 64, p / 64),
    ensures
        collision_prefix(display, mem, i, xo, yo, rows1, cols1) == collision_prefix(
            display,
            mem,
            i,
            xo,
            yo,
            rows2,
            cols2,
        ),
{
    if collision_prefix(display, mem, i, xo, yo, rows1, cols1) {
        let p = choose|p: int|
            0 <= p < display.len() && covers_prefix(mem, i, xo, yo, rows1, cols1, p % 64, p / 64)
                && display[p];
        assert(covers_prefix(mem, i, xo, yo, rows2, cols2, p % 64, p / 64));
        assert(collision_prefix(display, mem, i, xo, yo, rows2, cols2));
    }
    if collision_prefix(display, mem, i, xo, yo, rows2, cols2) {
        let p = choose|p: int|
            0 <= p < display.len() && covers_prefix(mem, i, xo, yo, rows2, cols2, p % 64, p / 64)
                && display[p];
        assert(covers_prefix(mem, i, xo, yo, rows1, cols1, p % 64, p / 64));
        assert(collision_prefix(display, mem, i, xo, yo, rows1, cols1));
    }
}

/// Storing a register block never changes the memory size.
pub proof fn lemma_store_block_len(mem: Seq<u8>, vs: Seq<u8>, i: u16, k: int)
    requires
        mem.len() == MEM_SIZE,
    ensures
        store_block(mem, vs, i, k).len() == MEM_SIZE,
    decreases k + 1,
{
    if k >= 0 {
        lemma_store_block_len(mem, vs, i, k - 1);
    }
}

/// Loading a register block never changes the register count.
pub proof fn lemma_load_block_len(vs: Seq<u8>, mem: Seq<u8>, i: u16, k: int)
    requires
        vs.len() == 16,
        k < 16,
    ensures
        load_block(vs, mem, i, k).len() == 16,
    decreases k + 1,
{
    if k >= 0 {
        lemma_load_block_len(vs, mem, i, k - 1);
    }
}

/// A step of a well-formed machine leaves it well formed.
pub proof fn lemma_step_wf(pre: MachineSpec, rb: u8)
    requires
        pre.wf(),
    ensures
        step_spec(pre, rb).0.wf(),
{
    match pre.state {
        State::GetKey(_) => {},
        State::Default => {
            let w = word_at(pre.mem, pre.pc as int);
            let m = MachineSpec { pc: wrap16(pre.pc + 2), ..pre };
            if nib_a(w) == 0xf && low_byte(w) == 0x55 {
                lemma_store_block_len(m.mem, m.vs, m.i, nib_b(w) as int);
            }
            if nib_a(w) == 0xf && low_byte(w) == 0x65 {
                lemma_load_block_len(m.vs, m.mem, m.i, nib_b(w) as int);
            }
        },
    }
}

} // verus!
