//! The instruction semantics: one spec function per instruction family and
//! a dispatcher, `exec_spec`, that fetches, decodes and applies them.  The
//! executable interpreter in [`crate::emulator`] is proved to follow these
//! functions exactly.

use vstd::prelude::*;
use crate::state::{State, Fault, CycleOutcome, blank_display};

verus! {

/// The 16-bit instruction word at `pc`: the byte at `pc` is the high byte,
/// the byte at `pc + 1` the low byte (big-endian composition).
pub open spec fn fetch_spec(mem: Seq<u8>, pc: u16) -> u16
    recommends
        pc + 1 < mem.len(),
{
    ((mem[pc as int] as u16) << 8) | (mem[pc as int + 1] as u16)
}

/// The X nibble of an opcode (bits 8..11), a register index.
pub open spec fn op_x(op: u16) -> u16 {
    (op & 0x0F00) >> 8
}

/// The Y nibble of an opcode (bits 4..7), a register index.
pub open spec fn op_y(op: u16) -> u16 {
    (op & 0x00F0) >> 4
}

/// The low byte of an opcode, an immediate value.
pub open spec fn op_nn(op: u16) -> u8 {
    (op & 0x00FF) as u8
}

/// The low 12 bits of an opcode, an address.
pub open spec fn op_nnn(op: u16) -> u16 {
    op & 0x0FFF
}

/// The low nibble of an opcode, a sprite height.
pub open spec fn op_n(op: u16) -> u16 {
    op & 0x000F
}

/// Bounds of the decoded opcode fields.
pub proof fn lemma_op_fields(op: u16)
    ensures
        op_x(op) < 16,
        op_y(op) < 16,
        op_nn(op) == (op & 0x00FF),
        op_nnn(op) < 4096,
        op_n(op) < 16,
{
    assert((op & 0x0F00) >> 8 < 16) by (bit_vector);
    assert((op & 0x00F0) >> 4 < 16) by (bit_vector);
    assert(op & 0x00FF < 256) by (bit_vector);
    assert(op & 0x0FFF < 4096) by (bit_vector);
    assert(op & 0x000F < 16) by (bit_vector);
}

/// Addition on a register: 8-bit wraparound.
pub open spec fn wrap_add(a: u8, b: u8) -> u8 {
    ((a + b) % 256) as u8
}

/// Subtraction on a register: 8-bit wraparound.
pub open spec fn wrap_sub(a: u8, b: u8) -> u8 {
    ((a + 256 - b) % 256) as u8
}

/// A timer value one tick later: down by one, saturating at zero.
pub open spec fn dec_sat(t: u8) -> u8 {
    if t == 0 { 0u8 } else { (t - 1) as u8 }
}

/// The state after the timer gate of one cycle: if a 1/60-second period
/// had elapsed (`ticked`), both timers decay by one with saturation;
/// otherwise nothing changes.
pub open spec fn tick_spec(s: State, ticked: bool) -> State {
    if ticked {
        State { delay: dec_sat(s.delay), sound: dec_sat(s.sound), ..s }
    } else {
        s
    }
}

/// The state with the program counter advanced past one instruction.
pub open spec fn bump_pc(s: State) -> State {
    State { pc: (s.pc + 2) as u16, ..s }
}

/// The state with register `x` set to `val`.
pub open spec fn set_v(s: State, x: int, val: u8) -> State {
    State { v: s.v.update(x, val), ..s }
}

/// Clear screen (00E0): every display cell unset, program counter advanced.
pub open spec fn sem_cls(s: State) -> State {
    bump_pc(State { disp: blank_display(), ..s })
}

/// Return from subroutine (00EE): pop the stack into the program counter
/// and advance past the call; fault on an empty stack.
pub open spec fn sem_ret(s: State) -> Result<(State, CycleOutcome), Fault> {
    if s.sp == 0 {
        Err(Fault::StackUnderflow)
    } else {
        Ok((
            State {
                sp: (s.sp - 1) as u8,
                pc: (s.stack[s.sp - 1] + 2) as u16,
                ..s
            },
            CycleOutcome::Executed,
        ))
    }
}

/// Jump (1NNN): the program counter is replaced outright.
pub open spec fn sem_jump(s: State, nnn: u16) -> State {
    State { pc: nnn, ..s }
}

/// Call subroutine (2NNN): push the current program counter and jump;
/// fault when the stack is already at full depth.
pub open spec fn sem_call(s: State, nnn: u16) -> Result<(State, CycleOutcome), Fault> {
    if s.sp >= 16 {
        Err(Fault::StackOverflow)
    } else {
        Ok((
            State {
                stack: s.stack.update(s.sp as int, s.pc),
                sp: (s.sp + 1) as u8,
                pc: nnn,
                ..s
            },
            CycleOutcome::Executed,
        ))
    }
}

/// A conditional skip: the next instruction is skipped when `cond` holds.
pub open spec fn sem_skip_if(s: State, cond: bool) -> State {
    State { pc: if cond { (s.pc + 4) as u16 } else { (s.pc + 2) as u16 }, ..s }
}

/// Set register to immediate (6XNN).
pub open spec fn sem_set_imm(s: State, x: int, nn: u8) -> State {
    bump_pc(set_v(s, x, nn))
}

/// Add immediate to register (7XNN): 8-bit wraparound, no flag.
pub open spec fn sem_add_imm(s: State, x: int, nn: u8) -> State {
    bump_pc(set_v(s, x, wrap_add(s.v[x], nn)))
}

/// Register copy (8XY0).
pub open spec fn sem_mov(s: State, x: int, y: int) -> State {
    bump_pc(set_v(s, x, s.v[y]))
}

/// Bitwise OR (8XY1).
pub open spec fn sem_or(s: State, x: int, y: int) -> State {
    bump_pc(set_v(s, x, s.v[x] | s.v[y]))
}

/// Bitwise AND (8XY2).
pub open spec fn sem_and(s: State, x: int, y: int) -> State {
    bump_pc(set_v(s, x, s.v[x] & s.v[y]))
}

/// Bitwise XOR (8XY3).
pub open spec fn sem_xor(s: State, x: int, y: int) -> State {
    bump_pc(set_v(s, x, s.v[x] ^ s.v[y]))
}

/// Add with carry (8XY4): wraparound sum into Vx, then VF is 1 exactly
/// when the true sum overflowed a byte, else 0.
pub open spec fn sem_add_reg(s: State, x: int, y: int) -> State {
    let sum = s.v[x] + s.v[y];
    bump_pc(set_v(set_v(s, x, (sum % 256) as u8), 15, if sum > 255 { 1u8 } else { 0u8 }))
}

/// Subtract with borrow (8XY5): Vx - Vy with wraparound into Vx, then VF
/// is 1 exactly when a borrow occurred (Vx < Vy), else 0.
pub open spec fn sem_sub_reg(s: State, x: int, y: int) -> State {
    let borrow = s.v[x] < s.v[y];
    bump_pc(set_v(set_v(s, x, wrap_sub(s.v[x], s.v[y])), 15, if borrow { 1u8 } else { 0u8 }))
}

/// Shift right (8XY6): Vx receives Vy shifted right by one, and VF the
/// bit shifted out (the low bit of Vy).
pub open spec fn sem_shr(s: State, x: int, y: int) -> State {
    bump_pc(set_v(set_v(s, x, s.v[y] >> 1u8), 15, s.v[y] & 1))
}

/// Reverse subtract (8XY7): Vy - Vx with wraparound into Vx, VF as in
/// the ordinary subtract.
pub open spec fn sem_rsub_reg(s: State, x: int, y: int) -> State {
    let borrow = s.v[y] < s.v[x];
    bump_pc(set_v(set_v(s, x, wrap_sub(s.v[y], s.v[x])), 15, if borrow { 1u8 } else { 0u8 }))
}

/// Shift left (8XYE): Vx receives Vy shifted left by one, and VF the raw
/// masked high bit of Vy (0x80 or 0, not normalized to 1; this follows
/// the historical variant the semantics reproduce).
pub open spec fn sem_shl(s: State, x: int, y: int) -> State {
    bump_pc(set_v(set_v(s, x, s.v[y] << 1u8), 15, s.v[y] & 0x80))
}

/// Set the index register (ANNN).
pub open spec fn sem_set_i(s: State, nnn: u16) -> State {
    bump_pc(State { i: nnn, ..s })
}

/// Indexed jump (BNNN): jump to NNN + V0.
pub open spec fn sem_jump0(s: State, nnn: u16) -> State {
    State { pc: (nnn + s.v[0]) as u16, ..s }
}

/// Random (CXNN): Vx receives a random byte masked by the immediate.
pub open spec fn sem_rand(s: State, x: int, nn: u8, rnd: u8) -> State {
    bump_pc(set_v(s, x, rnd & nn))
}

/// Read the delay timer into a register (FX07).
pub open spec fn sem_read_delay(s: State, x: int) -> State {
    bump_pc(set_v(s, x, s.delay))
}

/// The lowest-indexed pressed key at or above index `k`, if any.
pub open spec fn first_pressed(keys: Seq<bool>, k: int) -> Option<u8>
    decreases 16 - k,
{
    if k < 0 || k >= 16 {
        None
    } else if keys[k] {
        Some(k as u8)
    } else {
        first_pressed(keys, k + 1)
    }
}

/// Scanning the keys upward from 0: once the keys below `k` are known to
/// be released, the first pressed key overall is the first at or above `k`.
pub proof fn lemma_first_pressed_skip(keys: Seq<bool>, k: int)
    requires
        0 <= k <= 16,
        forall|j: int| 0 <= j < k ==> !keys[j],
    ensures
        first_pressed(keys, 0) == first_pressed(keys, k),
    decreases k,
{
    if k > 0 {
        lemma_first_pressed_skip(keys, k - 1);
    }
}

/// Store key (FX0A): with no key pressed the state is left entirely
/// unchanged (the same instruction will be fetched again next cycle);
/// once a key is pressed, its lowest index is stored and the program
/// counter advances.
pub open spec fn sem_wait_key(s: State, x: int) -> (State, CycleOutcome) {
    match first_pressed(s.keys, 0) {
        Some(k) => (bump_pc(set_v(s, x, k)), CycleOutcome::Executed),
        None => (s, CycleOutcome::AwaitingKey),
    }
}

/// Set the delay timer from a register (FX15).
pub open spec fn sem_set_delay(s: State, x: int) -> State {
    bump_pc(State { delay: s.v[x], ..s })
}

/// Set the sound timer from a register (FX18).
pub open spec fn sem_set_sound(s: State, x: int) -> State {
    bump_pc(State { sound: s.v[x], ..s })
}

/// Add a register to the index register (FX1E): no overflow check is
/// defined, so the 16-bit sum wraps; an index past the memory bound only
/// faults when later used as an address.
pub open spec fn sem_add_i(s: State, x: int) -> State {
    bump_pc(State { i: ((s.i + s.v[x]) % 0x10000) as u16, ..s })
}

/// Font lookup (FX29): the index register receives the address of the
/// glyph for the digit in Vx; a value above 15 is a fault.
pub open spec fn sem_font(s: State, x: int) -> Result<(State, CycleOutcome), Fault> {
    if s.v[x] > 15 {
        Err(Fault::AddressOutOfRange)
    } else {
        Ok((bump_pc(State { i: (s.v[x] * 5) as u16, ..s }), CycleOutcome::Executed))
    }
}

/// Binary-coded decimal (FX33): the hundreds, tens and ones digits of Vx
/// are written to memory at I, I+1, I+2; a write past the memory bound
/// is a fault and leaves memory untouched.
pub open spec fn sem_bcd(s: State, x: int) -> Result<(State, CycleOutcome), Fault> {
    if s.i + 2 > 4095 {
        Err(Fault::AddressOutOfRange)
    } else {
        let vx = s.v[x];
        let mem = s.mem
            .update(s.i as int, (vx / 100) as u8)
            .update(s.i as int + 1, ((vx / 10) % 10) as u8)
            .update(s.i as int + 2, (vx % 10) as u8);
        Ok((bump_pc(State { mem, ..s }), CycleOutcome::Executed))
    }
}

/// Bulk register store (FX55): V0..Vx inclusive are copied to memory
/// starting at I, and I advances past the last byte written; a write past
/// the memory bound is a fault and leaves memory untouched.
pub open spec fn sem_store(s: State, x: int) -> Result<(State, CycleOutcome), Fault> {
    if s.i + x > 4095 {
        Err(Fault::AddressOutOfRange)
    } else {
        let mem = Seq::new(
            s.mem.len(),
            |a: int| if s.i <= a <= s.i + x { s.v[a - s.i] } else { s.mem[a] },
        );
        Ok((bump_pc(State { mem, i: (s.i + x + 1) as u16, ..s }), CycleOutcome::Executed))
    }
}

/// Bulk register load (FX65): the inverse of the store, reading memory
/// into V0..Vx and advancing I identically.
pub open spec fn sem_load(s: State, x: int) -> Result<(State, CycleOutcome), Fault> {
    if s.i + x > 4095 {
        Err(Fault::AddressOutOfRange)
    } else {
        let v = Seq::new(
            s.v.len(),
            |j: int| if 0 <= j <= x { s.mem[s.i + j] } else { s.v[j] },
        );
        Ok((bump_pc(State { v, i: (s.i + x + 1) as u16, ..s }), CycleOutcome::Executed))
    }
}

/// Key skip (EX9E / EXA1): skip when the key indexed by Vx is pressed
/// (`want_pressed`) or released; a register value above 15 names no key
/// and is a fault.
pub open spec fn sem_skip_key(s: State, x: int, want_pressed: bool) -> Result<
    (State, CycleOutcome),
    Fault,
> {
    if s.v[x] > 15 {
        Err(Fault::InvalidKeyIndex)
    } else {
        Ok((sem_skip_if(s, s.keys[s.v[x] as int] == want_pressed), CycleOutcome::Executed))
    }
}

/// The source bit of sprite byte `b` for column `c`: bit 7 is the leftmost
/// pixel.  The mask is written out per column so that executable code can
/// compute it without shifts.
pub open spec fn col_mask(c: int) -> u8 {
    if c == 0 { 0x80u8 }
    else if c == 1 { 0x40u8 }
    else if c == 2 { 0x20u8 }
    else if c == 3 { 0x10u8 }
    else if c == 4 { 0x08u8 }
    else if c == 5 { 0x04u8 }
    else if c == 6 { 0x02u8 }
    else { 0x01u8 }
}

/// One sprite row XORed onto the display, columns `0..c`: the display and
/// collision flag after blitting byte `b` at row `y0`, starting at
/// horizontal position `xv` with column coordinates wrapping at 64.
pub open spec fn draw_row_spec(disp: Seq<bool>, b: u8, xv: int, y0: int, c: int) -> (Seq<bool>, bool)
    decreases c,
{
    if c <= 0 {
        (disp, false)
    } else {
        let prev = draw_row_spec(disp, b, xv, y0, c - 1);
        let col = c - 1;
        let k = y0 * 64 + (xv + col) % 64;
        let bit = (b & col_mask(col)) != 0;
        (prev.0.update(k, prev.0[k] != bit), prev.1 || (prev.0[k] && bit))
    }
}

/// A sprite of `r` rows XORed onto the display: rows are read from memory
/// at `i`, row coordinates wrap at 32, and the collision flag is set when
/// any pixel goes from set to unset.
pub open spec fn draw_spec(disp: Seq<bool>, mem: Seq<u8>, i: int, xv: int, yv: int, r: int) -> (
    Seq<bool>,
    bool,
)
    decreases r,
{
    if r <= 0 {
        (disp, false)
    } else {
        let prev = draw_spec(disp, mem, i, xv, yv, r - 1);
        let row = r - 1;
        let rr = draw_row_spec(prev.0, mem[i + row], xv, (yv + row) % 32, 8);
        (rr.0, prev.1 || rr.1)
    }
}

/// The source bit of sprite byte `b` at column `c`.
pub open spec fn sprite_bit(b: u8, c: int) -> bool {
    (b & col_mask(c)) != 0
}

/// The display index a sprite column lands on: row `y0`, column
/// `(xv + c) mod 64`.
pub open spec fn draw_cell(xv: int, y0: int, c: int) -> int {
    y0 * 64 + (xv + c) % 64
}

/// The display row a sprite row lands on: `(yv + r) mod 32`.
pub open spec fn row_of(yv: int, r: int) -> int {
    (yv + r) % 32
}

/// Whether display cell `k` is touched by an `n`-row sprite at (xv, yv).
pub open spec fn draw_covers(xv: int, yv: int, n: int, k: int) -> bool {
    exists|r: int, c: int| 0 <= r < n && 0 <= c < 8 && k == draw_cell(xv, row_of(yv, r), c)
}

/// Sprite draw (DXYN): N rows from memory at I are XORed onto the display
/// at (Vx, Vy) with wrapping coordinates; VF receives the collision flag.
/// Reading past the memory bound is a fault that changes nothing.
pub open spec fn sem_draw(s: State, x: int, y: int, n: int) -> Result<(State, CycleOutcome), Fault> {
    if n > 0 && s.i + n > 4096 {
        Err(Fault::AddressOutOfRange)
    } else {
        let dr = draw_spec(s.disp, s.mem, s.i as int, s.v[x] as int, s.v[y] as int, n);
        Ok((
            bump_pc(State { disp: dr.0, v: s.v.update(15, if dr.1 { 1u8 } else { 0u8 }), ..s }),
            CycleOutcome::Redrawn,
        ))
    }
}

/// Fetch, decode and execute one instruction on state `s`, with `rnd` the
/// byte a random draw would produce.  `Err` is a fatal fault; `Ok` carries
/// the next state and what the host should do.  The decode masks mirror
/// the instruction families: a word matching none of them is an
/// `UnknownOpcode` fault.
pub open spec fn exec_spec(s: State, rnd: u8) -> Result<(State, CycleOutcome), Fault>
    recommends
        s.wf(),
{
    if s.pc > 4094 {
        Err(Fault::AddressOutOfRange)
    } else {
        let op = fetch_spec(s.mem, s.pc);
        let x = op_x(op) as int;
        let y = op_y(op) as int;
        let nn = op_nn(op);
        let nnn = op_nnn(op);
        if op == 0x00E0 {
            Ok((sem_cls(s), CycleOutcome::Executed))
        } else if op == 0x00EE {
            sem_ret(s)
        } else if op & 0xF000 == 0x1000 {
            Ok((sem_jump(s, nnn), CycleOutcome::Executed))
        } else if op & 0xF000 == 0x2000 {
            sem_call(s, nnn)
        } else if op & 0xF000 == 0x3000 {
            Ok((sem_skip_if(s, s.v[x] == nn), CycleOutcome::Executed))
        } else if op & 0xF000 == 0x4000 {
            Ok((sem_skip_if(s, s.v[x] != nn), CycleOutcome::Executed))
        } else if op & 0xF00F == 0x5000 {
            Ok((sem_skip_if(s, s.v[x] == s.v[y]), CycleOutcome::Executed))
        } else if op & 0xF000 == 0x6000 {
            Ok((sem_set_imm(s, x, nn), CycleOutcome::Executed))
        } else if op & 0xF000 == 0x7000 {
            Ok((sem_add_imm(s, x, nn), CycleOutcome::Executed))
        } else if op & 0xF00F == 0x8000 {
            Ok((sem_mov(s, x, y), CycleOutcome::Executed))
        } else if op & 0xF00F == 0x8001 {
            Ok((sem_or(s, x, y), CycleOutcome::Executed))
        } else if op & 0xF00F == 0x8002 {
            Ok((sem_and(s, x, y), CycleOutcome::Executed))
        } else if op & 0xF00F == 0x8003 {
            Ok((sem_xor(s, x, y), CycleOutcome::Executed))
        } else if op & 0xF00F == 0x8004 {
            Ok((sem_add_reg(s, x, y), CycleOutcome::Executed))
        } else if op & 0xF00F == 0x8005 {
            Ok((sem_sub_reg(s, x, y), CycleOutcome::Executed))
        } else if op & 0xF00F == 0x8006 {
            Ok((sem_shr(s, x, y), CycleOutcome::Executed))
        } else if op & 0xF00F == 0x8007 {
            Ok((sem_rsub_reg(s, x, y), CycleOutcome::Executed))
        } else if op & 0xF00F == 0x800E {
            Ok((sem_shl(s, x, y), CycleOutcome::Executed))
        } else if op & 0xF00F == 0x9000 {
            Ok((sem_skip_if(s, s.v[x] != s.v[y]), CycleOutcome::Executed))
        } else if op & 0xF000 == 0xA000 {
            Ok((sem_set_i(s, nnn), CycleOutcome::Executed))
        } else if op & 0xF000 == 0xB000 {
            Ok((sem_jump0(s, nnn), CycleOutcome::Executed))
        } else if op & 0xF000 == 0xC000 {
            Ok((sem_rand(s, x, nn, rnd), CycleOutcome::Executed))
        } else if op & 0xF000 == 0xD000 {
            sem_draw(s, x, y, op_n(op) as int)
        } else if op & 0xF0FF == 0xE09E {
            sem_skip_key(s, x, true)
        } else if op & 0xF0FF == 0xE0A1 {
            sem_skip_key(s, x, false)
        } else if op & 0xF0FF == 0xF007 {
            Ok((sem_read_delay(s, x), CycleOutcome::Executed))
        } else if op & 0xF0FF == 0xF00A {
            Ok(sem_wait_key(s, x))
        } else if op & 0xF0FF == 0xF015 {
            Ok((sem_set_delay(s, x), CycleOutcome::Executed))
        } else if op & 0xF0FF == 0xF018 {
            Ok((sem_set_sound(s, x), CycleOutcome::Executed))
        } else if op & 0xF0FF == 0xF01E {
            Ok((sem_add_i(s, x), CycleOutcome::Executed))
        } else if op & 0xF0FF == 0xF029 {
            sem_font(s, x)
        } else if op & 0xF0FF == 0xF033 {
            sem_bcd(s, x)
        } else if op & 0xF0FF == 0xF055 {
            sem_store(s, x)
        } else if op & 0xF0FF == 0xF065 {
            sem_load(s, x)
        } else {
            Err(Fault::UnknownOpcode)
        }
    }
}

/// How the result and final state of one whole cycle relate to the state
/// it started from: first the timer gate (`ticked` says whether a period
/// had elapsed), then one instruction; a fault leaves everything but the
/// timers as it was.
pub open spec fn step_matches(
    pre: State,
    post: State,
    r: Result<CycleOutcome, Fault>,
    spec_r: Result<(State, CycleOutcome), Fault>,
) -> bool {
    match spec_r {
        Ok(p) => r == Ok::<CycleOutcome, Fault>(p.1) && post == p.0,
        Err(f) => r == Err::<CycleOutcome, Fault>(f) && post == pre,
    }
}

/// The contract of `cycle`, for one choice of the timer gate and of the
/// random byte.
pub open spec fn cycle_post(
    pre: State,
    post: State,
    ticked: bool,
    rnd: u8,
    r: Result<CycleOutcome, Fault>,
) -> bool {
    let s1 = tick_spec(pre, ticked);
    step_matches(s1, post, r, exec_spec(s1, rnd))
}

} // verus!
