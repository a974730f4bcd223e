//! The executable machine.  Every method is verified against the
//! mathematical semantics in [`crate::semantics`]; only the wall clock
//! and the random byte come from outside, through the trusted items in
//! [`crate::clock`] and [`crate::rng`].

use vstd::prelude::*;
use std::time::Instant;
use crate::state::{
    State, Fault, blank_display, font_data, initial_memory,
    MEM_SIZE, PROG_START, PROG_END, MAX_ROM_SIZE, STACK_SIZE, NUM_REGS, NUM_KEYS,
    DISPLAY_CELLS,
};
use crate::semantics::{
    fetch_spec, tick_spec, wrap_add, wrap_sub,
    sem_cls, sem_ret, sem_jump, sem_call, sem_skip_if, sem_set_imm, sem_add_imm,
    sem_mov, sem_or, sem_and, sem_xor, sem_add_reg, sem_sub_reg, sem_shr, sem_rsub_reg,
    sem_shl, sem_set_i, sem_jump0, sem_rand, sem_read_delay, sem_set_delay, sem_set_sound,
    sem_add_i, sem_font, sem_bcd, sem_skip_key, sem_store, sem_load, sem_wait_key,
    sem_draw, first_pressed, lemma_first_pressed_skip, col_mask, draw_row_spec, draw_spec,
    step_matches, cycle_post, lemma_op_fields,
};
use crate::state::CycleOutcome;
use crate::rng::random_byte;

verus! {

/// The period of the 60 Hz timer clock, in nanoseconds (one second
/// divided by sixty, truncated).
pub const TIMER_PERIOD_NANOS: u128 = 16_666_666;

/// The virtual machine.  The fields are public so that a host (or a test)
/// can inspect the whole state; the methods keep `wf()`, and callers that
/// poke the fields directly are responsible for keeping it too.
pub struct Chip8 {
    /// Program counter.
    pub reg_pc: u16,
    /// Stack pointer.
    pub reg_sp: u8,
    /// Index register.
    pub reg_i: u16,
    /// Delay timer.
    pub reg_timer_delay: u8,
    /// Sound timer.
    pub reg_timer_sound: u8,
    /// General-purpose registers V0..VF; always 16 entries.
    pub reg_v: Vec<u8>,
    /// Return-address stack; always 16 entries.
    pub stack: Vec<u16>,
    /// The address space; always 4096 bytes.
    pub memory: Vec<u8>,
    /// Keyboard latch; always 16 entries, written only through the
    /// keyboard interface, read by the key instructions.  A key stays
    /// pressed until overwritten or cleared (level-triggered).
    pub keyboard: Vec<bool>,
    /// Display cells, row-major (`row * 64 + col`); always 2048 entries.
    pub display: Vec<bool>,
    /// When the timers last decayed.  Not part of the machine model:
    /// no contract speaks of it.
    pub timer_start: Instant,
}

impl View for Chip8 {
    type V = State;

    open spec fn view(&self) -> State {
        State {
            pc: self.reg_pc,
            sp: self.reg_sp,
            i: self.reg_i,
            delay: self.reg_timer_delay,
            sound: self.reg_timer_sound,
            v: self.reg_v@,
            stack: self.stack@,
            mem: self.memory@,
            keys: self.keyboard@,
            disp: self.display@,
        }
    }
}

/// A vector of `n` zero bytes.
fn zero_bytes(n: usize) -> (r: Vec<u8>)
    ensures
        r@.len() == n,
        forall|k: int| 0 <= k < n ==> r@[k] == 0u8,
{
    let mut r: Vec<u8> = Vec::new();
    while r.len() < n
        invariant
            r@.len() <= n,
            forall|k: int| 0 <= k < r@.len() ==> r@[k] == 0u8,
        decreases n - r@.len(),
    {
        r.push(0);
    }
    r
}

/// A vector of `n` zero words.
fn zero_words(n: usize) -> (r: Vec<u16>)
    ensures
        r@.len() == n,
        forall|k: int| 0 <= k < n ==> r@[k] == 0u16,
{
    let mut r: Vec<u16> = Vec::new();
    while r.len() < n
        invariant
            r@.len() <= n,
            forall|k: int| 0 <= k < r@.len() ==> r@[k] == 0u16,
        decreases n - r@.len(),
    {
        r.push(0);
    }
    r
}

/// A vector of `n` unset flags.
fn false_flags(n: usize) -> (r: Vec<bool>)
    ensures
        r@.len() == n,
        forall|k: int| 0 <= k < n ==> !r@[k],
{
    let mut r: Vec<bool> = Vec::new();
    while r.len() < n
        invariant
            r@.len() <= n,
            forall|k: int| 0 <= k < r@.len() ==> !r@[k],
        decreases n - r@.len(),
    {
        r.push(false);
    }
    r
}

/// The address space at construction: the font glyphs at the bottom,
/// zeroes everywhere else.
pub fn initialize_memory() -> (m: Vec<u8>)
    ensures
        m@ == initial_memory(),
{
    let mut m: Vec<u8> = Vec::new();
    m.push(0xF0); m.push(0x90); m.push(0x90); m.push(0x90); m.push(0xF0); // 0
    m.push(0x20); m.push(0x60); m.push(0x20); m.push(0x20); m.push(0x70); // 1
    m.push(0xF0); m.push(0x10); m.push(0xF0); m.push(0x80); m.push(0xF0); // 2
    m.push(0xF0); m.push(0x10); m.push(0xF0); m.push(0x10); m.push(0xF0); // 3
    m.push(0x90); m.push(0x90); m.push(0xF0); m.push(0x10); m.push(0x10); // 4
    m.push(0xF0); m.push(0x80); m.push(0xF0); m.push(0x10); m.push(0xF0); // 5
    m.push(0xF0); m.push(0x80); m.push(0xF0); m.push(0x90); m.push(0xF0); // 6
    m.push(0xF0); m.push(0x10); m.push(0x20); m.push(0x40); m.push(0x40); // 7
    m.push(0xF0); m.push(0x90); m.push(0xF0); m.push(0x90); m.push(0xF0); // 8
    m.push(0xF0); m.push(0x90); m.push(0xF0); m.push(0x10); m.push(0xF0); // 9
    m.push(0xF0); m.push(0x90); m.push(0xF0); m.push(0x90); m.push(0x90); // A
    m.push(0xE0); m.push(0x90); m.push(0xE0); m.push(0x90); m.push(0xE0); // B
    m.push(0xF0); m.push(0x80); m.push(0x80); m.push(0x80); m.push(0xF0); // C
    m.push(0xE0); m.push(0x90); m.push(0x90); m.push(0x90); m.push(0xE0); // D
    m.push(0xF0); m.push(0x80); m.push(0xF0); m.push(0x80); m.push(0xF0); // E
    m.push(0xF0); m.push(0x80); m.push(0xF0); m.push(0x80); m.push(0x80); // F
    proof {
        assert(m@ =~= font_data());
    }
    while m.len() < MEM_SIZE
        invariant
            80 <= m@.len() <= MEM_SIZE,
            forall|k: int| 0 <= k < 80 ==> m@[k] == font_data()[k],
            forall|k: int| 80 <= k < m@.len() ==> m@[k] == 0u8,
        decreases MEM_SIZE - m@.len(),
    {
        m.push(0);
    }
    proof {
        assert(m@ =~= initial_memory());
    }
    m
}

/// The 16-bit instruction word in `memory` at `pc`, big-endian.
pub fn get_opcode(memory: &Vec<u8>, pc: u16) -> (op: u16)
    requires
        pc + 1 < memory@.len(),
    ensures
        op == fetch_spec(memory@, pc),
{
    let big: u16 = (memory[pc as usize] as u16) << 8u16;
    let little: u16 = memory[pc as usize + 1] as u16;
    big | little
}

impl Chip8 {
    /// Well-formedness of the machine: see [`State::wf`].
    pub open spec fn wf(&self) -> bool {
        self@.wf()
    }

    /// A fresh machine: font loaded, screen blank, registers and stack
    /// zeroed, program counter at the start of the program region.
    pub fn new() -> (c: Chip8)
        ensures
            c.wf(),
            c@.pc == 0x200,
            c@.sp == 0,
            c@.i == 0,
            c@.delay == 0,
            c@.sound == 0,
            c@.v == Seq::new(NUM_REGS as nat, |k: int| 0u8),
            c@.stack == Seq::new(STACK_SIZE as nat, |k: int| 0u16),
            c@.keys == Seq::new(NUM_KEYS as nat, |k: int| false),
            c@.disp == blank_display(),
            c@.mem == initial_memory(),
    {
        let c = Chip8 {
            reg_pc: 0x200,
            reg_sp: 0,
            reg_i: 0,
            reg_timer_delay: 0,
            reg_timer_sound: 0,
            reg_v: zero_bytes(NUM_REGS),
            stack: zero_words(STACK_SIZE),
            memory: initialize_memory(),
            keyboard: false_flags(NUM_KEYS),
            display: false_flags(DISPLAY_CELLS),
            timer_start: Instant::now(),
        };
        proof {
            assert(c@.v =~= Seq::new(NUM_REGS as nat, |k: int| 0u8));
            assert(c@.stack =~= Seq::new(STACK_SIZE as nat, |k: int| 0u16));
            assert(c@.keys =~= Seq::new(NUM_KEYS as nat, |k: int| false));
            assert(c@.disp =~= blank_display());
        }
        c
    }

    /// Copy a ROM verbatim into the program region.  A ROM larger than the
    /// region is rejected with `RomTooLarge` and nothing is written.
    pub fn load(&mut self, data: Vec<u8>) -> (r: Result<(), Fault>)
        requires
            old(self).wf(),
        ensures
            final(self).wf(),
            data@.len() <= MAX_ROM_SIZE ==> {
                &&& r == Ok::<(), Fault>(())
                &&& final(self)@ == (State {
                    mem: Seq::new(
                        MEM_SIZE as nat,
                        |a: int| if PROG_START <= a < PROG_START + data@.len() {
                            data@[a - PROG_START]
                        } else {
                            old(self)@.mem[a]
                        },
                    ),
                    ..old(self)@
                })
            },
            data@.len() > MAX_ROM_SIZE ==> {
                &&& r == Err::<(), Fault>(Fault::RomTooLarge)
                &&& *final(self) == *old(self)
            },
    {
        if data.len() > PROG_END - PROG_START {
            return Err(Fault::RomTooLarge);
        }
        let ghost pre = self@;
        let mut index: usize = 0;
        while index < data.len()
            invariant
                pre.wf(),
                data@.len() <= MAX_ROM_SIZE,
                index <= data@.len(),
                (State { mem: pre.mem, ..self@ }) == pre,
                self@.mem.len() == MEM_SIZE,
                forall|a: int| PROG_START <= a < PROG_START + index ==> self@.mem[a]
                    == data@[a - PROG_START],
                forall|a: int| (0 <= a < PROG_START || PROG_START + index <= a < MEM_SIZE)
                    ==> self@.mem[a] == pre.mem[a],
            decreases data@.len() - index,
        {
            let b = data[index];
            self.memory.set(PROG_START + index, b);
            index += 1;
        }
        proof {
            assert(self@.mem =~= Seq::new(
                MEM_SIZE as nat,
                |a: int| if PROG_START <= a < PROG_START + data@.len() {
                    data@[a - PROG_START]
                } else {
                    pre.mem[a]
                },
            ));
        }
        Ok(())
    }

    /// Whether the host should be sounding the tone: the sound timer is
    /// above one (not merely above zero), which gates the audible tone by
    /// one tick.
    pub fn should_play_sound(&self) -> (r: bool)
        ensures
            r == (self@.sound > 1),
    {
        self.reg_timer_sound > 1
    }

    /// Latch one key as pressed or released.  An index above 15 names no
    /// key: it is rejected with `InvalidKeyIndex` and nothing changes.
    pub fn set_keyboard_key(&mut self, index: usize, is_pressed: bool) -> (r: Result<(), Fault>)
        requires
            old(self).wf(),
        ensures
            final(self).wf(),
            index < NUM_KEYS ==> {
                &&& r == Ok::<(), Fault>(())
                &&& final(self)@ == (State {
                    keys: old(self)@.keys.update(index as int, is_pressed),
                    ..old(self)@
                })
            },
            index >= NUM_KEYS ==> {
                &&& r == Err::<(), Fault>(Fault::InvalidKeyIndex)
                &&& *final(self) == *old(self)
            },
    {
        if index > 15 {
            return Err(Fault::InvalidKeyIndex);
        }
        self.keyboard.set(index, is_pressed);
        Ok(())
    }

    /// Release every key on the latch.
    pub fn clear_keyboard(&mut self)
        requires
            old(self).wf(),
        ensures
            final(self).wf(),
            final(self)@ == (State {
                keys: Seq::new(NUM_KEYS as nat, |k: int| false),
                ..old(self)@
            }),
    {
        let ghost pre = self@;
        let mut k: usize = 0;
        while k < NUM_KEYS
            invariant
                k <= NUM_KEYS,
                (State { keys: pre.keys, ..self@ }) == pre,
                self@.keys.len() == NUM_KEYS,
                forall|j: int| 0 <= j < k ==> !self@.keys[j],
            decreases NUM_KEYS - k,
        {
            self.keyboard.set(k, false);
            k += 1;
        }
        proof {
            assert(self@.keys =~= Seq::new(NUM_KEYS as nat, |j: int| false));
        }
    }

    /// The timer gate of one cycle: when at least a sixtieth of a second
    /// has passed since the timers last decayed, both decay by one with
    /// saturation at zero, and the next period is measured from now.
    /// Returns whether the decay happened.
    pub fn process_timers(&mut self) -> (ticked: bool)
        requires
            old(self).wf(),
        ensures
            final(self).wf(),
            final(self)@ == tick_spec(old(self)@, ticked),
    {
        let now = Instant::now();
        let elapsed = now.saturating_duration_since(self.timer_start);
        if elapsed.as_nanos() >= TIMER_PERIOD_NANOS {
            self.reg_timer_delay = if self.reg_timer_delay == 0 {
                0
            } else {
                self.reg_timer_delay - 1
            };
            self.reg_timer_sound = if self.reg_timer_sound == 0 {
                0
            } else {
                self.reg_timer_sound - 1
            };
            self.timer_start = now;
            proof {
                assert(self@ =~= tick_spec(old(self)@, true));
            }
            true
        } else {
            proof {
                assert(self@ =~= tick_spec(old(self)@, false));
            }
            false
        }
    }
}

/// The opcode handlers.  Each one is verified against the spec function of
/// the same instruction; `cycle` dispatches to them.
impl Chip8 {
    /// 00E0: blank the whole display.
    fn op_clear_screen(&mut self)
        requires
            old(self).wf(),
            old(self)@.pc <= 4094,
        ensures
            final(self).wf(),
            final(self)@ == sem_cls(old(self)@),
    {
        let ghost pre = self@;
        let mut k: usize = 0;
        while k < DISPLAY_CELLS
            invariant
                k <= DISPLAY_CELLS,
                (State { disp: pre.disp, ..self@ }) == pre,
                self@.disp.len() == DISPLAY_CELLS,
                forall|j: int| 0 <= j < k ==> !self@.disp[j],
            decreases DISPLAY_CELLS - k,
        {
            self.display.set(k, false);
            k += 1;
        }
        self.reg_pc = self.reg_pc + 2;
        proof {
            assert(self@.disp =~= blank_display());
            assert(self@ =~= sem_cls(pre));
        }
    }

    /// 00EE: pop the stack into the program counter.
    fn op_return(&mut self) -> (r: Result<CycleOutcome, Fault>)
        requires
            old(self).wf(),
            old(self)@.pc <= 4094,
        ensures
            final(self).wf(),
            step_matches(old(self)@, final(self)@, r, sem_ret(old(self)@)),
    {
        if self.reg_sp == 0 {
            return Err(Fault::StackUnderflow);
        }
        self.reg_sp = self.reg_sp - 1;
        let ret = self.stack[self.reg_sp as usize];
        self.reg_pc = ret + 2;
        proof {
            assert(self@ =~= sem_ret(old(self)@).unwrap().0);
        }
        Ok(CycleOutcome::Executed)
    }

    /// 1NNN: jump.
    fn op_jump(&mut self, nnn: u16)
        requires
            old(self).wf(),
        ensures
            final(self).wf(),
            final(self)@ == sem_jump(old(self)@, nnn),
    {
        self.reg_pc = nnn;
        proof {
            assert(self@ =~= sem_jump(old(self)@, nnn));
        }
    }

    /// 2NNN: push the program counter and jump.
    fn op_call(&mut self, nnn: u16) -> (r: Result<CycleOutcome, Fault>)
        requires
            old(self).wf(),
            old(self)@.pc <= 4094,
        ensures
            final(self).wf(),
            step_matches(old(self)@, final(self)@, r, sem_call(old(self)@, nnn)),
    {
        if self.reg_sp >= 16 {
            return Err(Fault::StackOverflow);
        }
        self.stack.set(self.reg_sp as usize, self.reg_pc);
        self.reg_sp = self.reg_sp + 1;
        self.reg_pc = nnn;
        proof {
            assert(self@ =~= sem_call(old(self)@, nnn).unwrap().0);
        }
        Ok(CycleOutcome::Executed)
    }

    /// Common form of the four comparison skips.
    fn op_skip(&mut self, cond: bool)
        requires
            old(self).wf(),
            old(self)@.pc <= 4094,
        ensures
            final(self).wf(),
            final(self)@ == sem_skip_if(old(self)@, cond),
    {
        if cond {
            self.reg_pc = self.reg_pc + 4;
        } else {
            self.reg_pc = self.reg_pc + 2;
        }
        proof {
            assert(self@ =~= sem_skip_if(old(self)@, cond));
        }
    }

    /// 6XNN: set register to immediate.
    fn op_set_imm(&mut self, x: usize, nn: u8)
        requires
            old(self).wf(),
            x < NUM_REGS,
            old(self)@.pc <= 4094,
        ensures
            final(self).wf(),
            final(self)@ == sem_set_imm(old(self)@, x as int, nn),
    {
        self.reg_v.set(x, nn);
        self.reg_pc = self.reg_pc + 2;
        proof {
            assert(self@ =~= sem_set_imm(old(self)@, x as int, nn));
        }
    }

    /// 7XNN: add immediate with wraparound, no flag.
    fn op_add_imm(&mut self, x: usize, nn: u8)
        requires
            old(self).wf(),
            x < NUM_REGS,
            old(self)@.pc <= 4094,
        ensures
            final(self).wf(),
            final(self)@ == sem_add_imm(old(self)@, x as int, nn),
    {
        let vx = self.reg_v[x];
        let sum: u16 = vx as u16 + nn as u16;
        self.reg_v.set(x, (sum % 256) as u8);
        self.reg_pc = self.reg_pc + 2;
        proof {
            assert((sum % 256) as u8 == wrap_add(vx, nn));
            assert(self@ =~= sem_add_imm(old(self)@, x as int, nn));
        }
    }

    /// 8XY0: register copy.
    fn op_mov(&mut self, x: usize, y: usize)
        requires
            old(self).wf(),
            x < NUM_REGS,
            y < NUM_REGS,
            old(self)@.pc <= 4094,
        ensures
            final(self).wf(),
            final(self)@ == sem_mov(old(self)@, x as int, y as int),
    {
        let vy = self.reg_v[y];
        self.reg_v.set(x, vy);
        self.reg_pc = self.reg_pc + 2;
        proof {
            assert(self@ =~= sem_mov(old(self)@, x as int, y as int));
        }
    }

    /// 8XY1: bitwise OR.
    fn op_or(&mut self, x: usize, y: usize)
        requires
            old(self).wf(),
            x < NUM_REGS,
            y < NUM_REGS,
            old(self)@.pc <= 4094,
        ensures
            final(self).wf(),
            final(self)@ == sem_or(old(self)@, x as int, y as int),
    {
        let vx = self.reg_v[x];
        let vy = self.reg_v[y];
        self.reg_v.set(x, vx | vy);
        self.reg_pc = self.reg_pc + 2;
        proof {
            assert(self@ =~= sem_or(old(self)@, x as int, y as int));
        }
    }

    /// 8XY2: bitwise AND.
    fn op_and(&mut self, x: usize, y: usize)
        requires
            old(self).wf(),
            x < NUM_REGS,
            y < NUM_REGS,
            old(self)@.pc <= 4094,
        ensures
            final(self).wf(),
            final(self)@ == sem_and(old(self)@, x as int, y as int),
    {
        let vx = self.reg_v[x];
        let vy = self.reg_v[y];
        self.reg_v.set(x, vx & vy);
        self.reg_pc = self.reg_pc + 2;
        proof {
            assert(self@ =~= sem_and(old(self)@, x as int, y as int));
        }
    }

    /// 8XY3: bitwise XOR.
    fn op_xor(&mut self, x: usize, y: usize)
        requires
            old(self).wf(),
            x < NUM_REGS,
            y < NUM_REGS,
            old(self)@.pc <= 4094,
        ensures
            final(self).wf(),
            final(self)@ == sem_xor(old(self)@, x as int, y as int),
    {
        let vx = self.reg_v[x];
        let vy = self.reg_v[y];
        self.reg_v.set(x, vx ^ vy);
        self.reg_pc = self.reg_pc + 2;
        proof {
            assert(self@ =~= sem_xor(old(self)@, x as int, y as int));
        }
    }

    /// 8XY4: add with the carry written to VF.
    fn op_add_reg(&mut self, x: usize, y: usize)
        requires
            old(self).wf(),
            x < NUM_REGS,
            y < NUM_REGS,
            old(self)@.pc <= 4094,
        ensures
            final(self).wf(),
            final(self)@ == sem_add_reg(old(self)@, x as int, y as int),
    {
        let vx = self.reg_v[x];
        let vy = self.reg_v[y];
        let sum: u16 = vx as u16 + vy as u16;
        self.reg_v.set(x, (sum % 256) as u8);
        self.reg_v.set(15, if sum > 255 { 1 } else { 0 });
        self.reg_pc = self.reg_pc + 2;
        proof {
            assert(self@ =~= sem_add_reg(old(self)@, x as int, y as int));
        }
    }

    /// 8XY5: subtract with the borrow written to VF.
    fn op_sub_reg(&mut self, x: usize, y: usize)
        requires
            old(self).wf(),
            x < NUM_REGS,
            y < NUM_REGS,
            old(self)@.pc <= 4094,
        ensures
            final(self).wf(),
            final(self)@ == sem_sub_reg(old(self)@, x as int, y as int),
    {
        let vx = self.reg_v[x];
        let vy = self.reg_v[y];
        let diff: u16 = (vx as u16 + 256 - vy as u16) % 256;
        self.reg_v.set(x, diff as u8);
        self.reg_v.set(15, if vx < vy { 1 } else { 0 });
        self.reg_pc = self.reg_pc + 2;
        proof {
            assert(diff as u8 == wrap_sub(vx, vy));
            assert(self@ =~= sem_sub_reg(old(self)@, x as int, y as int));
        }
    }

    /// 8XY6: shift right; Vx gets Vy shifted, VF the bit shifted out.
    fn op_shr(&mut self, x: usize, y: usize)
        requires
            old(self).wf(),
            x < NUM_REGS,
            y < NUM_REGS,
            old(self)@.pc <= 4094,
        ensures
            final(self).wf(),
            final(self)@ == sem_shr(old(self)@, x as int, y as int),
    {
        let vy = self.reg_v[y];
        self.reg_v.set(x, vy >> 1u8);
        self.reg_v.set(15, vy & 1);
        self.reg_pc = self.reg_pc + 2;
        proof {
            assert(self@ =~= sem_shr(old(self)@, x as int, y as int));
        }
    }

    /// 8XY7: reverse subtract with the borrow written to VF.
    fn op_rsub_reg(&mut self, x: usize, y: usize)
        requires
            old(self).wf(),
            x < NUM_REGS,
            y < NUM_REGS,
            old(self)@.pc <= 4094,
        ensures
            final(self).wf(),
            final(self)@ == sem_rsub_reg(old(self)@, x as int, y as int),
    {
        let vx = self.reg_v[x];
        let vy = self.reg_v[y];
        let diff: u16 = (vy as u16 + 256 - vx as u16) % 256;
        self.reg_v.set(x, diff as u8);
        self.reg_v.set(15, if vy < vx { 1 } else { 0 });
        self.reg_pc = self.reg_pc + 2;
        proof {
            assert(diff as u8 == wrap_sub(vy, vx));
            assert(self@ =~= sem_rsub_reg(old(self)@, x as int, y as int));
        }
    }

    /// 8XYE: shift left; Vx gets Vy shifted, VF the raw masked high bit.
    fn op_shl(&mut self, x: usize, y: usize)
        requires
            old(self).wf(),
            x < NUM_REGS,
            y < NUM_REGS,
            old(self)@.pc <= 4094,
        ensures
            final(self).wf(),
            final(self)@ == sem_shl(old(self)@, x as int, y as int),
    {
        let vy = self.reg_v[y];
        self.reg_v.set(x, vy << 1u8);
        self.reg_v.set(15, vy & 0x80);
        self.reg_pc = self.reg_pc + 2;
        proof {
            assert(self@ =~= sem_shl(old(self)@, x as int, y as int));
        }
    }

    /// ANNN: set the index register.
    fn op_set_index(&mut self, nnn: u16)
        requires
            old(self).wf(),
            old(self)@.pc <= 4094,
        ensures
            final(self).wf(),
            final(self)@ == sem_set_i(old(self)@, nnn),
    {
        self.reg_i = nnn;
        self.reg_pc = self.reg_pc + 2;
        proof {
            assert(self@ =~= sem_set_i(old(self)@, nnn));
        }
    }

    /// BNNN: jump to NNN + V0.
    fn op_jump_v0(&mut self, nnn: u16)
        requires
            old(self).wf(),
            nnn < 4096,
        ensures
            final(self).wf(),
            final(self)@ == sem_jump0(old(self)@, nnn),
    {
        let v0 = self.reg_v[0];
        self.reg_pc = nnn + v0 as u16;
        proof {
            assert(self@ =~= sem_jump0(old(self)@, nnn));
        }
    }

    /// CXNN: a random byte masked by the immediate.  Returns the byte that
    /// was drawn, so the caller can name it in its own contract.
    fn op_random(&mut self, x: usize, nn: u8) -> (rb: u8)
        requires
            old(self).wf(),
            x < NUM_REGS,
            old(self)@.pc <= 4094,
        ensures
            final(self).wf(),
            final(self)@ == sem_rand(old(self)@, x as int, nn, rb),
    {
        let rb = random_byte();
        self.reg_v.set(x, rb & nn);
        self.reg_pc = self.reg_pc + 2;
        proof {
            assert(self@ =~= sem_rand(old(self)@, x as int, nn, rb));
        }
        rb
    }

    /// FX07: read the delay timer into Vx.
    fn op_read_delay(&mut self, x: usize)
        requires
            old(self).wf(),
            x < NUM_REGS,
            old(self)@.pc <= 4094,
        ensures
            final(self).wf(),
            final(self)@ == sem_read_delay(old(self)@, x as int),
    {
        let d = self.reg_timer_delay;
        self.reg_v.set(x, d);
        self.reg_pc = self.reg_pc + 2;
        proof {
            assert(self@ =~= sem_read_delay(old(self)@, x as int));
        }
    }

    /// FX15: set the delay timer from Vx.
    fn op_set_delay(&mut self, x: usize)
        requires
            old(self).wf(),
            x < NUM_REGS,
            old(self)@.pc <= 4094,
        ensures
            final(self).wf(),
            final(self)@ == sem_set_delay(old(self)@, x as int),
    {
        self.reg_timer_delay = self.reg_v[x];
        self.reg_pc = self.reg_pc + 2;
        proof {
            assert(self@ =~= sem_set_delay(old(self)@, x as int));
        }
    }

    /// FX18: set the sound timer from Vx.
    fn op_set_sound(&mut self, x: usize)
        requires
            old(self).wf(),
            x < NUM_REGS,
            old(self)@.pc <= 4094,
        ensures
            final(self).wf(),
            final(self)@ == sem_set_sound(old(self)@, x as int),
    {
        self.reg_timer_sound = self.reg_v[x];
        self.reg_pc = self.reg_pc + 2;
        proof {
            assert(self@ =~= sem_set_sound(old(self)@, x as int));
        }
    }

    /// FX1E: add Vx to the index register; the 16-bit sum wraps, and an
    /// index past the memory bound only faults when later used.
    fn op_add_index(&mut self, x: usize)
        requires
            old(self).wf(),
            x < NUM_REGS,
            old(self)@.pc <= 4094,
        ensures
            final(self).wf(),
            final(self)@ == sem_add_i(old(self)@, x as int),
    {
        let vx = self.reg_v[x];
        self.reg_i = self.reg_i.wrapping_add(vx as u16);
        self.reg_pc = self.reg_pc + 2;
        proof {
            assert(self@.i == ((old(self)@.i + old(self)@.v[x as int]) % 0x10000) as u16);
            assert(self@ =~= sem_add_i(old(self)@, x as int));
        }
    }

    /// FX29: point the index register at the font glyph for the digit in
    /// Vx; a value above 15 names no glyph.
    fn op_font_index(&mut self, x: usize) -> (r: Result<CycleOutcome, Fault>)
        requires
            old(self).wf(),
            x < NUM_REGS,
            old(self)@.pc <= 4094,
        ensures
            final(self).wf(),
            step_matches(old(self)@, final(self)@, r, sem_font(old(self)@, x as int)),
    {
        let vx = self.reg_v[x];
        if vx > 15 {
            return Err(Fault::AddressOutOfRange);
        }
        self.reg_i = vx as u16 * 5;
        self.reg_pc = self.reg_pc + 2;
        proof {
            assert(self@ =~= sem_font(old(self)@, x as int).unwrap().0);
        }
        Ok(CycleOutcome::Executed)
    }

    /// FX33: write the decimal digits of Vx to memory at I, I+1, I+2.
    fn op_bcd(&mut self, x: usize) -> (r: Result<CycleOutcome, Fault>)
        requires
            old(self).wf(),
            x < NUM_REGS,
            old(self)@.pc <= 4094,
        ensures
            final(self).wf(),
            step_matches(old(self)@, final(self)@, r, sem_bcd(old(self)@, x as int)),
    {
        let i0 = self.reg_i as usize;
        if i0 + 2 > 4095 {
            return Err(Fault::AddressOutOfRange);
        }
        let vx = self.reg_v[x];
        self.memory.set(i0, vx / 100);
        self.memory.set(i0 + 1, (vx / 10) % 10);
        self.memory.set(i0 + 2, vx % 10);
        self.reg_pc = self.reg_pc + 2;
        proof {
            assert(self@ =~= sem_bcd(old(self)@, x as int).unwrap().0);
        }
        Ok(CycleOutcome::Executed)
    }

    /// EX9E / EXA1: skip on the state of the key indexed by Vx.
    fn op_skip_key(&mut self, x: usize, want_pressed: bool) -> (r: Result<CycleOutcome, Fault>)
        requires
            old(self).wf(),
            x < NUM_REGS,
            old(self)@.pc <= 4094,
        ensures
            final(self).wf(),
            step_matches(old(self)@, final(self)@, r, sem_skip_key(old(self)@, x as int, want_pressed)),
    {
        let vx = self.reg_v[x];
        if vx > 15 {
            return Err(Fault::InvalidKeyIndex);
        }
        let pressed = self.keyboard[vx as usize];
        self.op_skip(pressed == want_pressed);
        Ok(CycleOutcome::Executed)
    }

    /// FX55: copy V0..Vx into memory at I, advancing I past the last byte.
    fn op_store_regs(&mut self, x: usize) -> (r: Result<CycleOutcome, Fault>)
        requires
            old(self).wf(),
            x < NUM_REGS,
            old(self)@.pc <= 4094,
        ensures
            final(self).wf(),
            step_matches(old(self)@, final(self)@, r, sem_store(old(self)@, x as int)),
    {
        let i0 = self.reg_i as usize;
        if i0 + x > 4095 {
            return Err(Fault::AddressOutOfRange);
        }
        let ghost pre = self@;
        let mut j: usize = 0;
        while j <= x
            invariant
                pre.wf(),
                x < NUM_REGS,
                i0 == pre.i as usize,
                i0 + x <= 4095,
                j <= x + 1,
                self@.i == i0 + j,
                (State { mem: pre.mem, i: pre.i, ..self@ }) == pre,
                self@.mem.len() == MEM_SIZE,
                forall|a: int| i0 <= a < i0 + j ==> self@.mem[a] == pre.v[a - i0],
                forall|a: int| (0 <= a < i0 || i0 + j <= a < MEM_SIZE) ==> self@.mem[a]
                    == pre.mem[a],
            decreases x + 1 - j,
        {
            let val = self.reg_v[j];
            self.memory.set(self.reg_i as usize, val);
            self.reg_i = self.reg_i + 1;
            j += 1;
        }
        self.reg_pc = self.reg_pc + 2;
        proof {
            assert(self@.mem =~= Seq::new(
                pre.mem.len(),
                |a: int| if pre.i <= a <= pre.i + x { pre.v[a - pre.i] } else { pre.mem[a] },
            ));
            assert(self@ =~= sem_store(pre, x as int).unwrap().0);
        }
        Ok(CycleOutcome::Executed)
    }

    /// FX65: read memory at I into V0..Vx, advancing I past the last byte.
    fn op_load_regs(&mut self, x: usize) -> (r: Result<CycleOutcome, Fault>)
        requires
            old(self).wf(),
            x < NUM_REGS,
            old(self)@.pc <= 4094,
        ensures
            final(self).wf(),
            step_matches(old(self)@, final(self)@, r, sem_load(old(self)@, x as int)),
    {
        let i0 = self.reg_i as usize;
        if i0 + x > 4095 {
            return Err(Fault::AddressOutOfRange);
        }
        let ghost pre = self@;
        let mut j: usize = 0;
        while j <= x
            invariant
                pre.wf(),
                x < NUM_REGS,
                i0 == pre.i as usize,
                i0 + x <= 4095,
                j <= x + 1,
                self@.i == i0 + j,
                (State { v: pre.v, i: pre.i, ..self@ }) == pre,
                self@.v.len() == NUM_REGS,
                forall|k: int| 0 <= k < j ==> self@.v[k] == pre.mem[i0 + k],
                forall|k: int| j <= k < NUM_REGS ==> self@.v[k] == pre.v[k],
            decreases x + 1 - j,
        {
            let val = self.memory[self.reg_i as usize];
            self.reg_v.set(j, val);
            self.reg_i = self.reg_i + 1;
            j += 1;
        }
        self.reg_pc = self.reg_pc + 2;
        proof {
            assert(self@.v =~= Seq::new(
                pre.v.len(),
                |k: int| if 0 <= k <= x { pre.mem[pre.i + k] } else { pre.v[k] },
            ));
            assert(self@ =~= sem_load(pre, x as int).unwrap().0);
        }
        Ok(CycleOutcome::Executed)
    }

    /// FX0A: store the lowest-indexed pressed key into Vx and advance, or
    /// change nothing at all while no key is pressed.
    fn op_wait_key(&mut self, x: usize) -> (oc: CycleOutcome)
        requires
            old(self).wf(),
            x < NUM_REGS,
            old(self)@.pc <= 4094,
        ensures
            final(self).wf(),
            step_matches(
                old(self)@,
                final(self)@,
                Ok(oc),
                Ok(sem_wait_key(old(self)@, x as int)),
            ),
    {
        let ghost pre = self@;
        let mut k: usize = 0;
        while k < NUM_KEYS
            invariant
                pre.wf(),
                x < NUM_REGS,
                pre.pc <= 4094,
                k <= NUM_KEYS,
                pre == old(self)@,
                self@ == pre,
                forall|j: int| 0 <= j < k ==> !pre.keys[j],
            decreases NUM_KEYS - k,
        {
            if self.keyboard[k] {
                proof {
                    lemma_first_pressed_skip(pre.keys, k as int);
                    assert(first_pressed(pre.keys, 0) == Some(k as u8));
                }
                self.reg_v.set(x, k as u8);
                self.reg_pc = self.reg_pc + 2;
                proof {
                    assert(self@ =~= sem_wait_key(pre, x as int).0);
                }
                return CycleOutcome::Executed;
            }
            k += 1;
        }
        proof {
            lemma_first_pressed_skip(pre.keys, 16);
            assert(first_pressed(pre.keys, 0) is None);
        }
        CycleOutcome::AwaitingKey
    }

    /// DXYN: XOR an N-row sprite from memory at I onto the display at
    /// (Vx, Vy), wrapping coordinates, collision flag into VF.
    fn op_draw(&mut self, x: usize, y: usize, n: usize) -> (r: Result<CycleOutcome, Fault>)
        requires
            old(self).wf(),
            x < NUM_REGS,
            y < NUM_REGS,
            n < 16,
            old(self)@.pc <= 4094,
        ensures
            final(self).wf(),
            step_matches(
                old(self)@,
                final(self)@,
                r,
                sem_draw(old(self)@, x as int, y as int, n as int),
            ),
    {
        let i0 = self.reg_i as usize;
        if n > 0 && i0 + n > 4096 {
            return Err(Fault::AddressOutOfRange);
        }
        let vx = self.reg_v[x] as usize;
        let vy = self.reg_v[y] as usize;
        let ghost pre = self@;
        let mut collision = false;
        let mut row: usize = 0;
        while row < n
            invariant
                pre.wf(),
                n < 16,
                row <= n,
                i0 == pre.i as usize,
                n > 0 ==> i0 + n <= 4096,
                vx < 256,
                vy < 256,
                (State { disp: pre.disp, ..self@ }) == pre,
                self@.disp.len() == DISPLAY_CELLS,
                self@.disp == draw_spec(
                    pre.disp, pre.mem, i0 as int, vx as int, vy as int, row as int,
                ).0,
                collision == draw_spec(
                    pre.disp, pre.mem, i0 as int, vx as int, vy as int, row as int,
                ).1,
            decreases n - row,
        {
            let byte = self.memory[i0 + row];
            let yy = (vy + row) % 32;
            let ghost d0 = self@.disp;
            let ghost c0 = collision;
            let mut col: usize = 0;
            while col < 8
                invariant
                    pre.wf(),
                    col <= 8,
                    vx < 256,
                    yy < 32,
                    (State { disp: pre.disp, ..self@ }) == pre,
                    self@.disp.len() == DISPLAY_CELLS,
                    d0.len() == DISPLAY_CELLS,
                    self@.disp == draw_row_spec(d0, byte, vx as int, yy as int, col as int).0,
                    collision == (c0 || draw_row_spec(
                        d0, byte, vx as int, yy as int, col as int,
                    ).1),
                decreases 8 - col,
            {
                let xx = (vx + col) % 64;
                let idx = yy * 64 + xx;
                let mask: u8 = match col {
                    0 => 0x80,
                    1 => 0x40,
                    2 => 0x20,
                    3 => 0x10,
                    4 => 0x08,
                    5 => 0x04,
                    6 => 0x02,
                    _ => 0x01,
                };
                proof {
                    assert(mask == col_mask(col as int));
                }
                let bit = (byte & mask) != 0;
                let cur = self.display[idx];
                if cur && bit {
                    collision = true;
                }
                self.display.set(idx, cur != bit);
                col += 1;
                proof {
                    let rr_prev = draw_row_spec(d0, byte, vx as int, yy as int, col - 1);
                    let rr = draw_row_spec(d0, byte, vx as int, yy as int, col as int);
                    assert(idx as int == yy * 64 + (vx + (col - 1)) % 64);
                    assert(self@.disp =~= rr.0);
                    assert(collision == (c0 || rr.1));
                }
            }
            row += 1;
            proof {
                let prev = draw_spec(
                    pre.disp, pre.mem, i0 as int, vx as int, vy as int, row - 1,
                );
                let curr = draw_spec(
                    pre.disp, pre.mem, i0 as int, vx as int, vy as int, row as int,
                );
                assert(d0 == prev.0);
                assert(self@.disp =~= curr.0);
                assert(collision == curr.1);
            }
        }
        let flag: u8 = if collision { 1 } else { 0 };
        self.reg_v.set(15, flag);
        self.reg_pc = self.reg_pc + 2;
        proof {
            assert(self@ =~= sem_draw(pre, x as int, y as int, n as int).unwrap().0);
        }
        Ok(CycleOutcome::Redrawn)
    }
}

/// The fetch-decode-execute entry point.
impl Chip8 {
    /// Execute one tick: the timer gate advances first (whether or not an
    /// instruction can run), then one instruction is fetched at the program
    /// counter, decoded by its mask pattern, and executed.  A fault is
    /// returned as a value and leaves everything but the timers unchanged,
    /// so the host can read the program counter and index register to see
    /// where the run died.  The contract says exactly this: for some timer
    /// gate outcome and some random byte, the machine followed
    /// [`crate::semantics::exec_spec`].
    pub fn cycle(&mut self) -> (r: Result<CycleOutcome, Fault>)
        requires
            old(self).wf(),
        ensures
            final(self).wf(),
            exists|ticked: bool, rnd: u8|
                #[trigger] cycle_post(old(self)@, final(self)@, ticked, rnd, r),
    {
        let ghost pre = self@;
        let ticked = self.process_timers();
        let ghost s1 = self@;

        if self.reg_pc > 4094 {
            proof {
                assert(cycle_post(pre, self@, ticked, 0u8, Err(Fault::AddressOutOfRange)));
            }
            return Err(Fault::AddressOutOfRange);
        }
        let opcode = get_opcode(&self.memory, self.reg_pc);
        proof {
            lemma_op_fields(opcode);
        }
        let x = ((opcode & 0x0F00) >> 8u16) as usize;
        let y = ((opcode & 0x00F0) >> 4u16) as usize;
        let nn = (opcode & 0x00FF) as u8;
        let nnn = opcode & 0x0FFF;

        if opcode == 0x00E0 {
            self.op_clear_screen();
            proof {
                assert(cycle_post(pre, self@, ticked, 0u8, Ok(CycleOutcome::Executed)));
            }
            return Ok(CycleOutcome::Executed);
        }
        if opcode == 0x00EE {
            let r = self.op_return();
            proof {
                assert(cycle_post(pre, self@, ticked, 0u8, r));
            }
            return r;
        }
        if opcode & 0xF000 == 0x1000 {
            self.op_jump(nnn);
            proof {
                assert(cycle_post(pre, self@, ticked, 0u8, Ok(CycleOutcome::Executed)));
            }
            return Ok(CycleOutcome::Executed);
        }
        if opcode & 0xF000 == 0x2000 {
            let r = self.op_call(nnn);
            proof {
                assert(cycle_post(pre, self@, ticked, 0u8, r));
            }
            return r;
        }
        if opcode & 0xF000 == 0x3000 {
            let vx = self.reg_v[x];
            self.op_skip(vx == nn);
            proof {
                assert(cycle_post(pre, self@, ticked, 0u8, Ok(CycleOutcome::Executed)));
            }
            return Ok(CycleOutcome::Executed);
        }
        if opcode & 0xF000 == 0x4000 {
            let vx = self.reg_v[x];
            self.op_skip(vx != nn);
            proof {
                assert(cycle_post(pre, self@, ticked, 0u8, Ok(CycleOutcome::Executed)));
            }
            return Ok(CycleOutcome::Executed);
        }
        if opcode & 0xF00F == 0x5000 {
            let vx = self.reg_v[x];
            let vy = self.reg_v[y];
            self.op_skip(vx == vy);
            proof {
                assert(cycle_post(pre, self@, ticked, 0u8, Ok(CycleOutcome::Executed)));
            }
            return Ok(CycleOutcome::Executed);
        }
        if opcode & 0xF000 == 0x6000 {
            self.op_set_imm(x, nn);
            proof {
                assert(cycle_post(pre, self@, ticked, 0u8, Ok(CycleOutcome::Executed)));
            }
            return Ok(CycleOutcome::Executed);
        }
        if opcode & 0xF000 == 0x7000 {
            self.op_add_imm(x, nn);
            proof {
                assert(cycle_post(pre, self@, ticked, 0u8, Ok(CycleOutcome::Executed)));
            }
            return Ok(CycleOutcome::Executed);
        }
        if opcode & 0xF00F == 0x8000 {
            self.op_mov(x, y);
            proof {
                assert(cycle_post(pre, self@, ticked, 0u8, Ok(CycleOutcome::Executed)));
            }
            return Ok(CycleOutcome::Executed);
        }
        if opcode & 0xF00F == 0x8001 {
            self.op_or(x, y);
            proof {
                assert(cycle_post(pre, self@, ticked, 0u8, Ok(CycleOutcome::Executed)));
            }
            return Ok(CycleOutcome::Executed);
        }
        if opcode & 0xF00F == 0x8002 {
            self.op_and(x, y);
            proof {
                assert(cycle_post(pre, self@, ticked, 0u8, Ok(CycleOutcome::Executed)));
            }
            return Ok(CycleOutcome::Executed);
        }
        if opcode & 0xF00F == 0x8003 {
            self.op_xor(x, y);
            proof {
                assert(cycle_post(pre, self@, ticked, 0u8, Ok(CycleOutcome::Executed)));
            }
            return Ok(CycleOutcome::Executed);
        }
        if opcode & 0xF00F == 0x8004 {
            self.op_add_reg(x, y);
            proof {
                assert(cycle_post(pre, self@, ticked, 0u8, Ok(CycleOutcome::Executed)));
            }
            return Ok(CycleOutcome::Executed);
        }
        if opcode & 0xF00F == 0x8005 {
            self.op_sub_reg(x, y);
            proof {
                assert(cycle_post(pre, self@, ticked, 0u8, Ok(CycleOutcome::Executed)));
            }
            return Ok(CycleOutcome::Executed);
        }
        if opcode & 0xF00F == 0x8006 {
            self.op_shr(x, y);
            proof {
                assert(cycle_post(pre, self@, ticked, 0u8, Ok(CycleOutcome::Executed)));
            }
            return Ok(CycleOutcome::Executed);
        }
        if opcode & 0xF00F == 0x8007 {
            self.op_rsub_reg(x, y);
            proof {
                assert(cycle_post(pre, self@, ticked, 0u8, Ok(CycleOutcome::Executed)));
            }
            return Ok(CycleOutcome::Executed);
        }
        if opcode & 0xF00F == 0x800E {
            self.op_shl(x, y);
            proof {
                assert(cycle_post(pre, self@, ticked, 0u8, Ok(CycleOutcome::Executed)));
            }
            return Ok(CycleOutcome::Executed);
        }
        if opcode & 0xF00F == 0x9000 {
            let vx = self.reg_v[x];
            let vy = self.reg_v[y];
            self.op_skip(vx != vy);
            proof {
                assert(cycle_post(pre, self@, ticked, 0u8, Ok(CycleOutcome::Executed)));
            }
            return Ok(CycleOutcome::Executed);
        }
        if opcode & 0xF000 == 0xA000 {
            self.op_set_index(nnn);
            proof {
                assert(cycle_post(pre, self@, ticked, 0u8, Ok(CycleOutcome::Executed)));
            }
            return Ok(CycleOutcome::Executed);
        }
        if opcode & 0xF000 == 0xB000 {
            self.op_jump_v0(nnn);
            proof {
                assert(cycle_post(pre, self@, ticked, 0u8, Ok(CycleOutcome::Executed)));
            }
            return Ok(CycleOutcome::Executed);
        }
        if opcode & 0xF000 == 0xC000 {
            let rb = self.op_random(x, nn);
            proof {
                assert(cycle_post(pre, self@, ticked, rb, Ok(CycleOutcome::Executed)));
            }
            return Ok(CycleOutcome::Executed);
        }
        if opcode & 0xF000 == 0xD000 {
            let n = (opcode & 0x000F) as usize;
            let r = self.op_draw(x, y, n);
            proof {
                assert(cycle_post(pre, self@, ticked, 0u8, r));
            }
            return r;
        }
        if opcode & 0xF0FF == 0xE09E {
            let r = self.op_skip_key(x, true);
            proof {
                assert(cycle_post(pre, self@, ticked, 0u8, r));
            }
            return r;
        }
        if opcode & 0xF0FF == 0xE0A1 {
            let r = self.op_skip_key(x, false);
            proof {
                assert(cycle_post(pre, self@, ticked, 0u8, r));
            }
            return r;
        }
        if opcode & 0xF0FF == 0xF007 {
            self.op_read_delay(x);
            proof {
                assert(cycle_post(pre, self@, ticked, 0u8, Ok(CycleOutcome::Executed)));
            }
            return Ok(CycleOutcome::Executed);
        }
        if opcode & 0xF0FF == 0xF00A {
            let oc = self.op_wait_key(x);
            proof {
                assert(cycle_post(pre, self@, ticked, 0u8, Ok(oc)));
            }
            return Ok(oc);
        }
        if opcode & 0xF0FF == 0xF015 {
            self.op_set_delay(x);
            proof {
                assert(cycle_post(pre, self@, ticked, 0u8, Ok(CycleOutcome::Executed)));
            }
            return Ok(CycleOutcome::Executed);
        }
        if opcode & 0xF0FF == 0xF018 {
            self.op_set_sound(x);
            proof {
                assert(cycle_post(pre, self@, ticked, 0u8, Ok(CycleOutcome::Executed)));
            }
            return Ok(CycleOutcome::Executed);
        }
        if opcode & 0xF0FF == 0xF01E {
            self.op_add_index(x);
            proof {
                assert(cycle_post(pre, self@, ticked, 0u8, Ok(CycleOutcome::Executed)));
            }
            return Ok(CycleOutcome::Executed);
        }
        if opcode & 0xF0FF == 0xF029 {
            let r = self.op_font_index(x);
            proof {
                assert(cycle_post(pre, self@, ticked, 0u8, r));
            }
            return r;
        }
        if opcode & 0xF0FF == 0xF033 {
            let r = self.op_bcd(x);
            proof {
                assert(cycle_post(pre, self@, ticked, 0u8, r));
            }
            return r;
        }
        if opcode & 0xF0FF == 0xF055 {
            let r = self.op_store_regs(x);
            proof {
                assert(cycle_post(pre, self@, ticked, 0u8, r));
            }
            return r;
        }
        if opcode & 0xF0FF == 0xF065 {
            let r = self.op_load_regs(x);
            proof {
                assert(cycle_post(pre, self@, ticked, 0u8, r));
            }
            return r;
        }
        proof {
            assert(cycle_post(pre, self@, ticked, 0u8, Err(Fault::UnknownOpcode)));
        }
        Err(Fault::UnknownOpcode)
    }
}

} // verus!
