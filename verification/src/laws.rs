//! General laws of the instruction set, proved of the step function that the
//! executable machine is verified against.

use crate::chip8::Fault;
use crate::chip8::State;
use crate::semantics::draw_collision;
use crate::semantics::draw_spec;
use crate::semantics::key_down_spec;
use crate::semantics::key_up_spec;
use crate::semantics::low12;
use crate::semantics::low_byte;
use crate::semantics::nib_a;
use crate::semantics::nib_b;
use crate::semantics::nib_c;
use crate::semantics::nib_d;
use crate::semantics::sprite_covers;
use crate::semantics::step_spec;
use crate::semantics::word_at;
use crate::semantics::wrap16;
use crate::semantics::MachineSpec;
use crate::semantics::DISPLAY_SIZE;
use vstd::prelude::*;

verus! {

/// Add-with-carry law: executing 8xy4 on register values a and b sets VF to
/// 1 exactly when a + b exceeds 255, and — for a target register other than
/// the flag register itself — leaves Vx holding (a + b) mod 256.
pub proof fn lemma_add_carry(pre: MachineSpec, rb: u8)
    requires
        pre.wf(),
        pre.state == State::Default,
        nib_a(word_at(pre.mem, pre.pc as int)) == 0x8,
        nib_d(word_at(pre.mem, pre.pc as int)) == 0x4,
        nib_b(word_at(pre.mem, pre.pc as int)) != 0xf,
    ensures
        step_spec(pre, rb).1 == Ok::<(), Fault>(()),
        ({
            let w = word_at(pre.mem, pre.pc as int);
            let a = pre.vs[nib_b(w) as int];
            let b = pre.vs[nib_c(w) as int];
            let post = step_spec(pre, rb).0;
            &&& post.vs[0xf] == (if a + b > 255 {
                1u8
            } else {
                0u8
            })
            &&& post.vs[nib_b(w) as int] == ((a + b) % 256) as u8
        }),
{
}

/// Subtract-with-borrow law: executing 8xy5 on register values a and b with
/// a != b sets VF to 1 exactly when a >= b, and — for a target register
/// other than the flag register — leaves Vx holding (a - b) mod 256. (When
/// a == b the flag is left at 0: the machine tests strict order.)
pub proof fn lemma_sub_borrow(pre: MachineSpec, rb: u8)
    requires
        pre.wf(),
        pre.state == State::Default,
        nib_a(word_at(pre.mem, pre.pc as int)) == 0x8,
        nib_d(word_at(pre.mem, pre.pc as int)) == 0x5,
        nib_b(word_at(pre.mem, pre.pc as int)) != 0xf,
        pre.vs[nib_b(word_at(pre.mem, pre.pc as int)) as int] != pre.vs[nib_c(
            word_at(pre.mem, pre.pc as int),
        ) as int],
    ensures
        step_spec(pre, rb).1 == Ok::<(), Fault>(()),
        ({
            let w = word_at(pre.mem, pre.pc as int);
            let a = pre.vs[nib_b(w) as int];
            let b = pre.vs[nib_c(w) as int];
            let post = step_spec(pre, rb).0;
            &&& post.vs[0xf] == (if a >= b {
                1u8
            } else {
                0u8
            })
            &&& post.vs[nib_b(w) as int] as int == (a - b) % 256
        }),
{
    let w = word_at(pre.mem, pre.pc as int);
    lemma_mod_diff(pre.vs[nib_b(w) as int] as int, pre.vs[nib_c(w) as int] as int);
}

/// For byte values, adding the modulus before subtracting does not change
/// the residue: (a + 256 - b) mod 256 == (a - b) mod 256.
proof fn lemma_mod_diff(a: int, b: int)
    requires
        0 <= a < 256,
        0 <= b < 256,
    ensures
        (a + 0x100 - b) % 0x100 == (a - b) % 256,
{
    if a >= b {
        assert((a - b) % 256 == a - b);
        assert((a + 0x100 - b) % 0x100 == a - b);
    } else {
        assert((a - b) % 256 == a - b + 256);
        assert((a + 0x100 - b) % 0x100 == a + 256 - b);
    }
}

/// Jump law: executing 1nnn sets the program counter to exactly nnn without
/// touching memory, so the very next step fetches the word at nnn.
pub proof fn lemma_jump(pre: MachineSpec, rb: u8)
    requires
        pre.wf(),
        pre.state == State::Default,
        nib_a(word_at(pre.mem, pre.pc as int)) == 0x1,
    ensures
        step_spec(pre, rb).1 == Ok::<(), Fault>(()),
        ({
            let w = word_at(pre.mem, pre.pc as int);
            let post = step_spec(pre, rb).0;
            &&& post.pc == low12(w)
            &&& post.mem == pre.mem
            &&& post.state == State::Default
            &&& word_at(post.mem, post.pc as int) == word_at(pre.mem, low12(w) as int)
        }),
{
}

/// Call/return law: 2nnn pushes the address immediately after itself and
/// jumps to nnn; a later 00EE executed with the call stack exactly as the
/// call left it — however deep the balanced nesting in between — returns
/// to that pushed address and restores the caller's stack.
pub proof fn lemma_call_return(pre: MachineSpec, mid: MachineSpec, rb1: u8, rb2: u8)
    requires
        pre.wf(),
        pre.state == State::Default,
        nib_a(word_at(pre.mem, pre.pc as int)) == 0x2,
        mid.wf(),
        mid.state == State::Default,
        word_at(mid.mem, mid.pc as int) == 0x00EE,
        mid.stack == step_spec(pre, rb1).0.stack,
    ensures
        step_spec(pre, rb1).0.pc == low12(word_at(pre.mem, pre.pc as int)),
        step_spec(pre, rb1).0.stack == pre.stack.push(wrap16(pre.pc + 2)),
        step_spec(mid, rb2).1 == Ok::<(), Fault>(()),
        step_spec(mid, rb2).0.pc == wrap16(pre.pc + 2),
        step_spec(mid, rb2).0.stack == pre.stack,
{
    assert(step_spec(mid, rb2).0.stack =~= pre.stack);
}

/// Draw involution law: drawing the same sprite twice at the same
/// coordinates restores every display cell to its pre-draw state; and when
/// the sprite lights no visible cell at all, the second draw reports no
/// collision.
pub proof fn lemma_draw_involution(m: MachineSpec, vx: u8, vy: u8, n: u8)
    requires
        m.wf(),
    ensures
        draw_spec(draw_spec(m, vx, vy, n), vx, vy, n).display == m.display,
        (forall|p: int|
            0 <= p < DISPLAY_SIZE ==> !(#[trigger] sprite_covers(
                m.mem,
                m.i,
                (vx % 64) as int,
                (vy % 32) as int,
                n as int,
                p % 64,
                p / 64,
            ))) ==> draw_spec(draw_spec(m, vx, vy, n), vx, vy, n).vs[0xf] == 0,
{
    let xo = (vx % 64) as int;
    let yo = (vy % 32) as int;
    let once = draw_spec(m, vx, vy, n);
    let twice = draw_spec(once, vx, vy, n);
    assert(twice.display =~= m.display);
    if forall|p: int|
        0 <= p < DISPLAY_SIZE ==> !(#[trigger] sprite_covers(m.mem, m.i, xo, yo, n as int, p % 64, p / 64)) {
        if draw_collision(once, xo, yo, n as int) {
            let p = choose|p: int|
                0 <= p < once.display.len() && sprite_covers(
                    once.mem,
                    once.i,
                    xo,
                    yo,
                    n as int,
                    p % 64,
                    p / 64,
                ) && once.display[p];
            assert(!sprite_covers(m.mem, m.i, xo, yo, n as int, p % 64, p / 64));
        }
    }
}

/// Key-wait law: Fx0A suspends fetch — every further step leaves the
/// machine exactly as it stands — until a key's rising edge arrives. The
/// rising edge of key k writes k into the target register and resumes
/// execution with the program counter still at the word after the Fx0A
/// instruction; a held key and a key release resolve nothing.
pub proof fn lemma_wait_key(pre: MachineSpec, rb: u8, rb2: u8, k: u8)
    requires
        pre.wf(),
        pre.state == State::Default,
        nib_a(word_at(pre.mem, pre.pc as int)) == 0xf,
        low_byte(word_at(pre.mem, pre.pc as int)) == 0x0a,
        k < 16,
    ensures
        step_spec(pre, rb).1 == Ok::<(), Fault>(()),
        ({
            let x = nib_b(word_at(pre.mem, pre.pc as int));
            let blocked = step_spec(pre, rb).0;
            &&& blocked.state == State::GetKey(x)
            &&& blocked.pc == wrap16(pre.pc + 2)
            &&& step_spec(blocked, rb2) == (blocked, Ok::<(), Fault>(()))
            &&& key_up_spec(blocked, k).state == State::GetKey(x)
            &&& (blocked.keys[k as int] ==> key_down_spec(blocked, k) == blocked)
            &&& (!blocked.keys[k as int] ==> {
                let resolved = key_down_spec(blocked, k);
                &&& resolved.vs[x as int] == k
                &&& resolved.state == State::Default
                &&& resolved.pc == wrap16(pre.pc + 2)
                &&& resolved.keys[k as int]
            })
        }),
{
}

} // verus!
