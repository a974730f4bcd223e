//! The machine model: constants, fault taxonomy, and the ghost state that
//! every contract of the interpreter speaks about.

use vstd::prelude::*;

verus! {

/// Size of the address space in bytes.
pub const MEM_SIZE: usize = 4096;
/// First address of the program region; the program counter starts here.
pub const PROG_START: usize = 0x200;
/// First address past the program region.
pub const PROG_END: usize = 0xEA0;
/// Largest ROM that fits in the program region (0xCA0 = 3232 bytes).
pub const MAX_ROM_SIZE: usize = 0xCA0;
/// Depth of the return-address stack.
pub const STACK_SIZE: usize = 16;
/// Number of general-purpose registers V0..VF.
pub const NUM_REGS: usize = 16;
/// Number of keys on the keypad.
pub const NUM_KEYS: usize = 16;
/// Width of the monochrome display in pixels.
pub const DISPLAY_WIDTH: usize = 64;
/// Height of the monochrome display in pixels.
pub const DISPLAY_HEIGHT: usize = 32;
/// Total number of display cells; the display is stored row-major,
/// cell `(row, col)` at index `row * 64 + col`.
pub const DISPLAY_CELLS: usize = 2048;
/// First address of the built-in font.
pub const SPRITE_START: usize = 0;
/// Bytes per font glyph.
pub const SPRITE_BYTE_WIDTH: usize = 5;
/// Number of font glyphs (hexadecimal digits 0..F).
pub const SPRITE_COUNT: usize = 16;

/// Everything that can go wrong inside the core.
///
/// `RomTooLarge` is the only recoverable error: it is reported by `load`
/// and leaves the machine untouched.  All other variants are fatal faults
/// surfaced by `cycle`; the machine state after a fault is the pre-fetch
/// state (only the timers have ticked), so a host can read the program
/// counter and index register to report where the run died.
#[derive(Clone, Copy, Debug, PartialEq, Eq, Structural)]
pub enum Fault {
    /// The ROM handed to `load` does not fit in the program region.
    RomTooLarge,
    /// A call was executed with the stack already at full depth.
    StackOverflow,
    /// A return was executed with an empty stack.
    StackUnderflow,
    /// The fetched instruction word matches no known pattern.
    UnknownOpcode,
    /// A memory access (fetch, index-register addressing, or a font lookup
    /// for a digit above 15) falls outside the address space.
    AddressOutOfRange,
    /// A key index above 15 was used, either by a caller of the keyboard
    /// interface or by a key-skip instruction.
    InvalidKeyIndex,
}

/// What a successful `cycle` did, so the host knows what to do next.
#[derive(Clone, Copy, Debug, PartialEq, Eq, Structural)]
pub enum CycleOutcome {
    /// An ordinary instruction ran.
    Executed,
    /// A sprite-draw instruction ran: the host should render the display.
    Redrawn,
    /// The store-key instruction found no key pressed: the program counter
    /// was left unchanged and only the timers advanced.
    AwaitingKey,
}

/// The mathematical state of the machine: everything the instruction
/// semantics read or write.  The wall-clock bookkeeping of the timer
/// gate is not part of it.
#[verifier::ext_equal]
pub ghost struct State {
    /// Program counter.
    pub pc: u16,
    /// Stack pointer: number of return addresses on the stack.
    pub sp: u8,
    /// Index register.
    pub i: u16,
    /// Delay timer.
    pub delay: u8,
    /// Sound timer.
    pub sound: u8,
    /// General-purpose registers V0..VF.
    pub v: Seq<u8>,
    /// Return-address stack; entries below `sp` are live.
    pub stack: Seq<u16>,
    /// The 4096-byte address space.
    pub mem: Seq<u8>,
    /// Keyboard latch, one flag per key.
    pub keys: Seq<bool>,
    /// Display cells, row-major.
    pub disp: Seq<bool>,
}

impl State {
    /// Well-formedness: fixed sizes, a stack pointer within depth, and
    /// live stack entries that can be resumed (a pushed program counter
    /// is at most 4094, so adding 2 on return stays a valid word).
    pub open spec fn wf(self) -> bool {
        &&& self.v.len() == NUM_REGS
        &&& self.stack.len() == STACK_SIZE
        &&& self.mem.len() == MEM_SIZE
        &&& self.keys.len() == NUM_KEYS
        &&& self.disp.len() == DISPLAY_CELLS
        &&& self.sp <= STACK_SIZE
        &&& forall|k: int| 0 <= k < self.sp ==> self.stack[k] <= 4094
    }
}

/// A display with every cell unset.
pub open spec fn blank_display() -> Seq<bool> {
    Seq::new(DISPLAY_CELLS as nat, |k: int| false)
}

/// The built-in font: 16 glyphs of 5 bytes each, the hexadecimal digits.
pub open spec fn font_data() -> Seq<u8> {
    seq![
        0xF0, 0x90, 0x90, 0x90, 0xF0, // 0
        0x20, 0x60, 0x20, 0x20, 0x70, // 1
        0xF0, 0x10, 0xF0, 0x80, 0xF0, // 2
        0xF0, 0x10, 0xF0, 0x10, 0xF0, // 3
        0x90, 0x90, 0xF0, 0x10, 0x10, // 4
        0xF0, 0x80, 0xF0, 0x10, 0xF0, // 5
        0xF0, 0x80, 0xF0, 0x90, 0xF0, // 6
        0xF0, 0x10, 0x20, 0x40, 0x40, // 7
        0xF0, 0x90, 0xF0, 0x90, 0xF0, // 8
        0xF0, 0x90, 0xF0, 0x10, 0xF0, // 9
        0xF0, 0x90, 0xF0, 0x90, 0x90, // A
        0xE0, 0x90, 0xE0, 0x90, 0xE0, // B
        0xF0, 0x80, 0x80, 0x80, 0xF0, // C
        0xE0, 0x90, 0x90, 0x90, 0xE0, // D
        0xF0, 0x80, 0xF0, 0x80, 0xF0, // E
        0xF0, 0x80, 0xF0, 0x80, 0x80, // F
    ]
}

/// The address space right after construction: the font at the bottom,
/// zeroes everywhere else.
pub open spec fn initial_memory() -> Seq<u8> {
    Seq::new(MEM_SIZE as nat, |a: int| if 0 <= a < 80 { font_data()[a] } else { 0u8 })
}

} // verus!
