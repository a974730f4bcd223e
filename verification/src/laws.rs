//! Laws of the instruction semantics: properties that relate several
//! instructions or whole classes of states, proved once and for all over
//! [`crate::semantics::exec_spec`].

use vstd::prelude::*;
use vstd::arithmetic::div_mod::lemma_fundamental_div_mod;
use crate::state::{State, Fault, CycleOutcome, blank_display};
use crate::semantics::{
    fetch_spec, exec_spec, tick_spec, dec_sat, op_x, op_y, op_nnn, lemma_op_fields,
    first_pressed, wrap_sub, draw_row_spec, draw_spec, sprite_bit, draw_cell, row_of,
    draw_covers,
};

verus! {

/// Big-endian composition: two bytes fetch as `hi * 256 + lo`.
pub proof fn lemma_fetch_value(mem: Seq<u8>, pc: u16, hi: u8, lo: u8)
    requires
        pc + 1 < mem.len(),
        mem[pc as int] == hi,
        mem[pc as int + 1] == lo,
    ensures
        fetch_spec(mem, pc) == hi * 256 + lo,
{
    assert(((hi as u16) << 8) | (lo as u16) == hi * 256 + lo) by (bit_vector);
}

/// A clear-screen instruction (bytes 0x00 0xE0) unsets every display cell,
/// advances the program counter by 2, and touches nothing else.
pub proof fn lemma_clear_screen(s: State, rnd: u8)
    requires
        s.wf(),
        s.pc <= 4094,
        s.mem[s.pc as int] == 0x00,
        s.mem[s.pc as int + 1] == 0xE0,
    ensures
        exec_spec(s, rnd) is Ok,
        ({
            let post = exec_spec(s, rnd).unwrap().0;
            &&& post.pc == s.pc + 2
            &&& forall|k: int| 0 <= k < 2048 ==> !post.disp[k]
            &&& post == (State { pc: post.pc, disp: post.disp, ..s })
        }),
{
    lemma_fetch_value(s.mem, s.pc, 0x00, 0xE0);
}

/// A call (2NNN) pushes the current program counter and jumps to NNN; the
/// return (00EE) it reaches pops it back and resumes just past the call.
/// Stated for the round trip of the testable scenario: any call opcode,
/// with a return instruction at its target.
pub proof fn lemma_call_return_round_trip(s: State, rnd1: u8, rnd2: u8)
    requires
        s.wf(),
        s.pc <= 4094,
        s.sp < 16,
        fetch_spec(s.mem, s.pc) & 0xF000 == 0x2000,
        op_nnn(fetch_spec(s.mem, s.pc)) <= 4094,
        s.mem[op_nnn(fetch_spec(s.mem, s.pc)) as int] == 0x00,
        s.mem[op_nnn(fetch_spec(s.mem, s.pc)) as int + 1] == 0xEE,
    ensures
        exec_spec(s, rnd1) is Ok,
        ({
            let called = exec_spec(s, rnd1).unwrap().0;
            &&& called.pc == op_nnn(fetch_spec(s.mem, s.pc))
            &&& called.sp == s.sp + 1
            &&& called.stack[s.sp as int] == s.pc
            &&& exec_spec(called, rnd2) is Ok
            &&& exec_spec(called, rnd2).unwrap().0.pc == s.pc + 2
            &&& exec_spec(called, rnd2).unwrap().0.sp == s.sp
        }),
{
    let op = fetch_spec(s.mem, s.pc);
    lemma_op_fields(op);
    assert(op & 0xF000 == 0x2000 ==> op != 0x00E0 && op != 0x00EE && op & 0xF000 != 0x1000)
        by (bit_vector);
    let called = exec_spec(s, rnd1).unwrap().0;
    lemma_fetch_value(called.mem, called.pc, 0x00, 0xEE);
}

/// Calling with the stack already at full depth is a `StackOverflow`
/// fault.
pub proof fn lemma_call_overflow(s: State, rnd: u8)
    requires
        s.wf(),
        s.pc <= 4094,
        s.sp == 16,
        fetch_spec(s.mem, s.pc) & 0xF000 == 0x2000,
    ensures
        exec_spec(s, rnd) == Err::<(State, CycleOutcome), Fault>(Fault::StackOverflow),
{
    let op = fetch_spec(s.mem, s.pc);
    assert(op & 0xF000 == 0x2000 ==> op != 0x00E0 && op != 0x00EE && op & 0xF000 != 0x1000)
        by (bit_vector);
}

/// Returning with an empty stack is a `StackUnderflow` fault.
pub proof fn lemma_return_underflow(s: State, rnd: u8)
    requires
        s.wf(),
        s.pc <= 4094,
        s.sp == 0,
        fetch_spec(s.mem, s.pc) == 0x00EE,
    ensures
        exec_spec(s, rnd) == Err::<(State, CycleOutcome), Fault>(Fault::StackUnderflow),
{
}

/// The add instruction (8XY4): Vx receives the 8-bit wraparound sum, and
/// VF is 1 exactly when the true sum overflowed a byte, else 0.
pub proof fn lemma_add_carry(s: State, rnd: u8)
    requires
        s.wf(),
        s.pc <= 4094,
        fetch_spec(s.mem, s.pc) & 0xF00F == 0x8004,
    ensures
        exec_spec(s, rnd) is Ok,
        ({
            let op = fetch_spec(s.mem, s.pc);
            let x = op_x(op) as int;
            let y = op_y(op) as int;
            let post = exec_spec(s, rnd).unwrap().0;
            &&& post.v[15] == (if s.v[x] + s.v[y] > 255 { 1u8 } else { 0u8 })
            &&& (x != 15 ==> post.v[x] == (s.v[x] + s.v[y]) % 256)
            &&& post.pc == s.pc + 2
        }),
{
    let op = fetch_spec(s.mem, s.pc);
    lemma_op_fields(op);
    assert(op & 0xF00F == 0x8004 ==> op != 0x00E0 && op != 0x00EE && op & 0xF000 != 0x1000
        && op & 0xF000 != 0x2000 && op & 0xF000 != 0x3000 && op & 0xF000 != 0x4000
        && op & 0xF00F != 0x5000 && op & 0xF000 != 0x6000 && op & 0xF000 != 0x7000
        && op & 0xF00F != 0x8000 && op & 0xF00F != 0x8001 && op & 0xF00F != 0x8002
        && op & 0xF00F != 0x8003) by (bit_vector);
}

/// The subtract instruction (8XY5): Vx receives Vx - Vy with 8-bit
/// wraparound, and VF is 1 exactly when a borrow occurred (Vx < Vy).
pub proof fn lemma_sub_borrow(s: State, rnd: u8)
    requires
        s.wf(),
        s.pc <= 4094,
        fetch_spec(s.mem, s.pc) & 0xF00F == 0x8005,
    ensures
        exec_spec(s, rnd) is Ok,
        ({
            let op = fetch_spec(s.mem, s.pc);
            let x = op_x(op) as int;
            let y = op_y(op) as int;
            let post = exec_spec(s, rnd).unwrap().0;
            &&& post.v[15] == (if s.v[x] < s.v[y] { 1u8 } else { 0u8 })
            &&& (x != 15 ==> post.v[x] == wrap_sub(s.v[x], s.v[y]))
            &&& post.pc == s.pc + 2
        }),
{
    let op = fetch_spec(s.mem, s.pc);
    lemma_op_fields(op);
    assert(op & 0xF00F == 0x8005 ==> op != 0x00E0 && op != 0x00EE && op & 0xF000 != 0x1000
        && op & 0xF000 != 0x2000 && op & 0xF000 != 0x3000 && op & 0xF000 != 0x4000
        && op & 0xF00F != 0x5000 && op & 0xF000 != 0x6000 && op & 0xF000 != 0x7000
        && op & 0xF00F != 0x8000 && op & 0xF00F != 0x8001 && op & 0xF00F != 0x8002
        && op & 0xF00F != 0x8003 && op & 0xF00F != 0x8004) by (bit_vector);
}

/// What the key scan of the store-key instruction finds: nothing exactly
/// when no key at or above `st` is pressed, otherwise the lowest pressed
/// index, which is pressed and below which every key is released.
pub proof fn lemma_first_pressed_found(keys: Seq<bool>, st: int)
    requires
        0 <= st <= 16,
    ensures
        match first_pressed(keys, st) {
            None => forall|j: int| st <= j < 16 ==> !keys[j],
            Some(k) => st <= k < 16 && keys[k as int]
                && forall|j: int| st <= j < k ==> !keys[j],
        },
    decreases 16 - st,
{
    if st < 16 && !keys[st] {
        lemma_first_pressed_found(keys, st + 1);
    }
}

/// The store-key instruction (FX0A): with no key pressed the whole state
/// is left unchanged (the program counter does not advance, so the same
/// instruction runs again next cycle); with some key pressed, the lowest
/// pressed index is stored into Vx and the program counter advances by 2.
pub proof fn lemma_wait_key(s: State, rnd: u8)
    requires
        s.wf(),
        s.pc <= 4094,
        fetch_spec(s.mem, s.pc) & 0xF0FF == 0xF00A,
    ensures
        exec_spec(s, rnd) is Ok,
        (forall|k: int| 0 <= k < 16 ==> !s.keys[k]) ==> exec_spec(s, rnd).unwrap()
            == (s, CycleOutcome::AwaitingKey),
        (exists|k: int| 0 <= k < 16 && s.keys[k]) ==> ({
            let op = fetch_spec(s.mem, s.pc);
            let post = exec_spec(s, rnd).unwrap().0;
            let lowest = first_pressed(s.keys, 0).unwrap();
            &&& exec_spec(s, rnd).unwrap().1 == CycleOutcome::Executed
            &&& first_pressed(s.keys, 0) is Some
            &&& s.keys[lowest as int]
            &&& (forall|j: int| 0 <= j < lowest ==> !s.keys[j])
            &&& post.v[op_x(op) as int] == lowest
            &&& post.pc == s.pc + 2
        }),
{
    let op = fetch_spec(s.mem, s.pc);
    lemma_op_fields(op);
    assert(op & 0xF0FF == 0xF00A ==> op != 0x00E0 && op != 0x00EE && op & 0xF000 != 0x1000
        && op & 0xF000 != 0x2000 && op & 0xF000 != 0x3000 && op & 0xF000 != 0x4000
        && op & 0xF00F != 0x5000 && op & 0xF000 != 0x6000 && op & 0xF000 != 0x7000
        && op & 0xF00F != 0x8000 && op & 0xF00F != 0x8001 && op & 0xF00F != 0x8002
        && op & 0xF00F != 0x8003 && op & 0xF00F != 0x8004 && op & 0xF00F != 0x8005
        && op & 0xF00F != 0x8006 && op & 0xF00F != 0x8007 && op & 0xF00F != 0x800E
        && op & 0xF00F != 0x9000 && op & 0xF000 != 0xA000 && op & 0xF000 != 0xB000
        && op & 0xF000 != 0xC000 && op & 0xF000 != 0xD000 && op & 0xF0FF != 0xE09E
        && op & 0xF0FF != 0xE0A1 && op & 0xF0FF != 0xF007) by (bit_vector);
    lemma_first_pressed_found(s.keys, 0);
}

/// One tick of the timer gate moves each timer down by at most one and
/// never below zero: a timer at zero stays at zero.
pub proof fn lemma_timer_decay(s: State, ticked: bool)
    ensures
        ({
            let post = tick_spec(s, ticked);
            &&& post.delay <= s.delay
            &&& post.sound <= s.sound
            &&& s.delay - post.delay <= 1
            &&& s.sound - post.sound <= 1
            &&& (s.delay == 0 ==> post.delay == 0)
            &&& (s.sound == 0 ==> post.sound == 0)
            &&& (ticked ==> post.delay == dec_sat(s.delay) && post.sound == dec_sat(s.sound))
            &&& (!ticked ==> post == s)
        }),
{
}

/// Two nonnegative numbers within 64 of each other with the same residue
/// modulo 64 are equal.
proof fn lemma_mod64_injective(a: int, b: int)
    requires
        -64 < a - b < 64,
        a % 64 == b % 64,
    ensures
        a == b,
{
    lemma_fundamental_div_mod(a, 64);
    lemma_fundamental_div_mod(b, 64);
}

/// Two nonnegative numbers within 32 of each other with the same residue
/// modulo 32 are equal.
proof fn lemma_mod32_injective(a: int, b: int)
    requires
        -32 < a - b < 32,
        a % 32 == b % 32,
    ensures
        a == b,
{
    lemma_fundamental_div_mod(a, 32);
    lemma_fundamental_div_mod(b, 32);
}

/// Cell-level description of one sprite row: blitting byte `b` at display
/// row `y0` XORs each of the first `c` source bits onto its cell and leaves
/// every other cell alone; the collision flag is set exactly when some
/// source bit erases a set cell.
proof fn lemma_row_cells(d: Seq<bool>, b: u8, xv: int, y0: int, c: int)
    requires
        d.len() == 2048,
        0 <= y0 < 32,
        0 <= xv,
        0 <= c <= 8,
    ensures
        draw_row_spec(d, b, xv, y0, c).0.len() == 2048,
        forall|k: int|
            0 <= k < 2048 && !(exists|cc: int| 0 <= cc < c && k == draw_cell(xv, y0, cc))
                ==> draw_row_spec(d, b, xv, y0, c).0[k] == d[k],
        forall|cc: int| 0 <= cc < c ==> draw_row_spec(d, b, xv, y0, c).0[draw_cell(xv, y0, cc)]
            == (d[draw_cell(xv, y0, cc)] != sprite_bit(b, cc)),
        draw_row_spec(d, b, xv, y0, c).1 == exists|cc: int|
            0 <= cc < c && d[draw_cell(xv, y0, cc)] && sprite_bit(b, cc),
    decreases c,
{
    if c > 0 {
        lemma_row_cells(d, b, xv, y0, c - 1);
        let prev = draw_row_spec(d, b, xv, y0, c - 1);
        let rr = draw_row_spec(d, b, xv, y0, c);
        let k_new = draw_cell(xv, y0, c - 1);
        assert(0 <= (xv + (c - 1)) % 64 < 64);
        assert(0 <= k_new < 2048);
        assert forall|cc: int| 0 <= cc < c - 1 implies k_new != draw_cell(xv, y0, cc) by {
            if k_new == draw_cell(xv, y0, cc) {
                lemma_mod64_injective(xv + (c - 1), xv + cc);
            }
        }
        assert(prev.0[k_new] == d[k_new]);
        assert(rr.0 == prev.0.update(k_new, prev.0[k_new] != sprite_bit(b, c - 1)));
        assert forall|cc: int| 0 <= cc < c implies rr.0[draw_cell(xv, y0, cc)] == (d[draw_cell(
            xv,
            y0,
            cc,
        )] != sprite_bit(b, cc)) by {
            assert(0 <= (xv + cc) % 64 < 64);
            if cc < c - 1 {
                if draw_cell(xv, y0, cc) == k_new {
                    lemma_mod64_injective(xv + (c - 1), xv + cc);
                }
            }
        }
        assert forall|k: int|
            0 <= k < 2048 && !(exists|cc: int| 0 <= cc < c && k == draw_cell(xv, y0, cc))
            implies rr.0[k] == d[k] by {
            assert(k != k_new);
            assert(!(exists|cc: int| 0 <= cc < c - 1 && k == draw_cell(xv, y0, cc)));
        }
        assert(rr.1 == (prev.1 || (d[k_new] && sprite_bit(b, c - 1))));
        assert(rr.1 == (exists|cc: int| 0 <= cc < c && d[draw_cell(xv, y0, cc)] && sprite_bit(
            b,
            cc,
        ))) by {
            if prev.1 {
                let cc = choose|cc: int|
                    0 <= cc < c - 1 && d[draw_cell(xv, y0, cc)] && sprite_bit(b, cc);
                assert(0 <= cc < c && d[draw_cell(xv, y0, cc)] && sprite_bit(b, cc));
            }
            if d[k_new] && sprite_bit(b, c - 1) {
                assert(0 <= c - 1 < c && d[draw_cell(xv, y0, c - 1)] && sprite_bit(b, c - 1));
            }
            if exists|cc: int| 0 <= cc < c && d[draw_cell(xv, y0, cc)] && sprite_bit(b, cc) {
                let cc = choose|cc: int|
                    0 <= cc < c && d[draw_cell(xv, y0, cc)] && sprite_bit(b, cc);
                if cc < c - 1 {
                    assert(0 <= cc < c - 1 && d[draw_cell(xv, y0, cc)] && sprite_bit(b, cc));
                }
            }
        }
    }
}

/// Cell-level description of a whole sprite draw: each source bit is XORed
/// onto its own cell (rows are distinct for sprites of at most 32 rows, so
/// no cell is touched twice), every other cell is untouched, and the
/// collision flag is set exactly when some source bit erases a set cell.
pub proof fn lemma_draw_cells(d: Seq<bool>, mem: Seq<u8>, i: int, xv: int, yv: int, n: int)
    requires
        d.len() == 2048,
        mem.len() == 4096,
        0 <= i,
        0 <= n <= 32,
        i + n <= 4096,
        0 <= xv,
        0 <= yv,
    ensures
        draw_spec(d, mem, i, xv, yv, n).0.len() == 2048,
        forall|k: int| 0 <= k < 2048 && !draw_covers(xv, yv, n, k) ==> draw_spec(
            d, mem, i, xv, yv, n,
        ).0[k] == d[k],
        forall|r: int, c: int| 0 <= r < n && 0 <= c < 8 ==> draw_spec(
            d, mem, i, xv, yv, n,
        ).0[draw_cell(xv, row_of(yv, r), c)] == (d[draw_cell(xv, row_of(yv, r), c)]
            != sprite_bit(mem[i + r], c)),
        draw_spec(d, mem, i, xv, yv, n).1 == exists|r: int, c: int|
            0 <= r < n && 0 <= c < 8 && d[draw_cell(xv, row_of(yv, r), c)] && sprite_bit(
                mem[i + r], c,
            ),
    decreases n,
{
    if n > 0 {
        lemma_draw_cells(d, mem, i, xv, yv, n - 1);
        let prev = draw_spec(d, mem, i, xv, yv, n - 1);
        let dr = draw_spec(d, mem, i, xv, yv, n);
        let y_new = row_of(yv, n - 1);
        let b_new = mem[i + (n - 1)];
        assert(0 <= y_new < 32);
        lemma_row_cells(prev.0, b_new, xv, y_new, 8);
        let rr = draw_row_spec(prev.0, b_new, xv, y_new, 8);
        assert(dr.0 == rr.0);
        assert(dr.1 == (prev.1 || rr.1));

        // Rows land on distinct display rows, so the cells of the new row
        // were untouched by the earlier rows, and vice versa.
        assert forall|r: int| 0 <= r < n - 1 implies row_of(yv, r) != y_new by {
            if row_of(yv, r) == y_new {
                lemma_mod32_injective(yv + (n - 1), yv + r);
            }
        }
        assert forall|c: int| 0 <= c < 8 implies prev.0[draw_cell(xv, y_new, c)] == d[draw_cell(
            xv, y_new, c,
        )] by {
            let k = draw_cell(xv, y_new, c);
            assert(0 <= (xv + c) % 64 < 64);
            assert(0 <= k < 2048);
            assert forall|r: int, cc: int| 0 <= r < n - 1 && 0 <= cc < 8 implies k != draw_cell(
                xv, row_of(yv, r), cc,
            ) by {
                assert(0 <= (xv + cc) % 64 < 64);
                assert(0 <= row_of(yv, r) < 32);
            }
            assert(!draw_covers(xv, yv, n - 1, k));
        }

        // Values at the new row's cells.
        assert forall|c: int| 0 <= c < 8 implies dr.0[draw_cell(xv, y_new, c)] == (d[draw_cell(
            xv, y_new, c,
        )] != sprite_bit(b_new, c)) by {
            assert(rr.0[draw_cell(xv, y_new, c)] == (prev.0[draw_cell(xv, y_new, c)]
                != sprite_bit(b_new, c)));
        }

        // Values at the earlier rows' cells: the new row does not touch them.
        assert forall|r: int, c: int| 0 <= r < n - 1 && 0 <= c < 8 implies dr.0[draw_cell(
            xv, row_of(yv, r), c,
        )] == (d[draw_cell(xv, row_of(yv, r), c)] != sprite_bit(mem[i + r], c)) by {
            let k = draw_cell(xv, row_of(yv, r), c);
            assert(0 <= (xv + c) % 64 < 64);
            assert(0 <= row_of(yv, r) < 32);
            assert(0 <= k < 2048);
            assert forall|cc: int| 0 <= cc < 8 implies k != draw_cell(xv, y_new, cc) by {
                assert(0 <= (xv + cc) % 64 < 64);
            }
            assert(rr.0[k] == prev.0[k]);
        }

        // Untouched cells.
        assert forall|k: int| 0 <= k < 2048 && !draw_covers(xv, yv, n, k) implies dr.0[k]
            == d[k] by {
            assert forall|r: int, c: int| 0 <= r < n - 1 && 0 <= c < 8 implies k != draw_cell(
                xv, row_of(yv, r), c,
            ) by {
                if k == draw_cell(xv, row_of(yv, r), c) {
                    assert(draw_covers(xv, yv, n, k));
                }
            }
            assert(!draw_covers(xv, yv, n - 1, k));
            assert forall|cc: int| 0 <= cc < 8 implies k != draw_cell(xv, y_new, cc) by {
                if k == draw_cell(xv, y_new, cc) {
                    assert(0 <= n - 1 < n && 0 <= cc < 8 && k == draw_cell(
                        xv, row_of(yv, n - 1), cc,
                    ));
                    assert(draw_covers(xv, yv, n, k));
                }
            }
            assert(prev.0[k] == d[k]);
            assert(rr.0[k] == prev.0[k]);
        }

        // The collision flag.
        assert(dr.1 == (exists|r: int, c: int|
            0 <= r < n && 0 <= c < 8 && d[draw_cell(xv, row_of(yv, r), c)] && sprite_bit(
                mem[i + r], c,
            ))) by {
            if prev.1 {
                let (r, c) = choose|r: int, c: int|
                    0 <= r < n - 1 && 0 <= c < 8 && d[draw_cell(xv, row_of(yv, r), c)]
                        && sprite_bit(mem[i + r], c);
                assert(0 <= r < n && 0 <= c < 8 && d[draw_cell(xv, row_of(yv, r), c)]
                    && sprite_bit(mem[i + r], c));
            }
            if rr.1 {
                let c = choose|c: int|
                    0 <= c < 8 && prev.0[draw_cell(xv, y_new, c)] && sprite_bit(b_new, c);
                assert(0 <= n - 1 < n && 0 <= c < 8 && d[draw_cell(xv, row_of(yv, n - 1), c)]
                    && sprite_bit(mem[i + (n - 1)], c));
            }
            if exists|r: int, c: int|
                0 <= r < n && 0 <= c < 8 && d[draw_cell(xv, row_of(yv, r), c)] && sprite_bit(
                    mem[i + r], c,
                ) {
                let (r, c) = choose|r: int, c: int|
                    0 <= r < n && 0 <= c < 8 && d[draw_cell(xv, row_of(yv, r), c)] && sprite_bit(
                        mem[i + r], c,
                    );
                if r < n - 1 {
                    assert(0 <= r < n - 1 && 0 <= c < 8 && d[draw_cell(xv, row_of(yv, r), c)]
                        && sprite_bit(mem[i + r], c));
                } else {
                    assert(prev.0[draw_cell(xv, y_new, c)] && sprite_bit(b_new, c));
                }
            }
        }
    }
}

/// Drawing a sprite onto a blank display raises no collision; drawing the
/// very same sprite again at the same position erases every pixel it set
/// (the display is blank again), and the second draw reports a collision
/// exactly when the sprite has any set bit at all.
pub proof fn lemma_draw_twice_blank(mem: Seq<u8>, i: int, xv: int, yv: int, n: int)
    requires
        mem.len() == 4096,
        0 <= i,
        0 <= n <= 15,
        i + n <= 4096,
        0 <= xv,
        0 <= yv,
    ensures
        !draw_spec(blank_display(), mem, i, xv, yv, n).1,
        draw_spec(draw_spec(blank_display(), mem, i, xv, yv, n).0, mem, i, xv, yv, n).0
            == blank_display(),
        draw_spec(draw_spec(blank_display(), mem, i, xv, yv, n).0, mem, i, xv, yv, n).1
            == exists|r: int, c: int|
                0 <= r < n && 0 <= c < 8 && #[trigger] sprite_bit(mem[i + r], c),
{
    let d0 = blank_display();
    lemma_draw_cells(d0, mem, i, xv, yv, n);
    let first = draw_spec(d0, mem, i, xv, yv, n);
    lemma_draw_cells(first.0, mem, i, xv, yv, n);
    let second = draw_spec(first.0, mem, i, xv, yv, n);

    assert(!first.1) by {
        if exists|r: int, c: int|
            0 <= r < n && 0 <= c < 8 && d0[draw_cell(xv, row_of(yv, r), c)] && sprite_bit(
                mem[i + r], c,
            ) {
            let (r, c) = choose|r: int, c: int|
                0 <= r < n && 0 <= c < 8 && d0[draw_cell(xv, row_of(yv, r), c)] && sprite_bit(
                    mem[i + r], c,
                );
            assert(0 <= (xv + c) % 64 < 64);
            assert(0 <= row_of(yv, r) < 32);
            assert(!d0[draw_cell(xv, row_of(yv, r), c)]);
        }
    }

    assert(second.0 =~= blank_display()) by {
        assert forall|k: int| 0 <= k < 2048 implies !second.0[k] by {
            if draw_covers(xv, yv, n, k) {
                let (r, c) = choose|r: int, c: int|
                    0 <= r < n && 0 <= c < 8 && k == draw_cell(xv, row_of(yv, r), c);
                assert(0 <= (xv + c) % 64 < 64);
                assert(0 <= row_of(yv, r) < 32);
                assert(!d0[k]);
                assert(first.0[k] == sprite_bit(mem[i + r], c));
                assert(second.0[k] == (first.0[k] != sprite_bit(mem[i + r], c)));
            } else {
                assert(first.0[k] == d0[k]);
                assert(second.0[k] == first.0[k]);
            }
        }
    }

    assert(second.1 == (exists|r: int, c: int|
        0 <= r < n && 0 <= c < 8 && #[trigger] sprite_bit(mem[i + r], c))) by {
        if second.1 {
            let (r, c) = choose|r: int, c: int|
                0 <= r < n && 0 <= c < 8 && first.0[draw_cell(xv, row_of(yv, r), c)]
                    && sprite_bit(mem[i + r], c);
            assert(0 <= r < n && 0 <= c < 8 && sprite_bit(mem[i + r], c));
        }
        if exists|r: int, c: int| 0 <= r < n && 0 <= c < 8 && #[trigger] sprite_bit(
            mem[i + r], c,
        ) {
            let (r, c) = choose|r: int, c: int|
                0 <= r < n && 0 <= c < 8 && #[trigger] sprite_bit(mem[i + r], c);
            assert(0 <= (xv + c) % 64 < 64);
            assert(0 <= row_of(yv, r) < 32);
            assert(!d0[draw_cell(xv, row_of(yv, r), c)]);
            assert(first.0[draw_cell(xv, row_of(yv, r), c)] == sprite_bit(mem[i + r], c));
            assert(0 <= r < n && 0 <= c < 8 && first.0[draw_cell(xv, row_of(yv, r), c)]
                && sprite_bit(mem[i + r], c));
        }
    }
}

} // verus!
