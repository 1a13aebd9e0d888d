//! Mathematical model of the machine and the meaning of every instruction.
use vstd::prelude::*;

use crate::font::font_seq;

verus! {

/// Bytes of addressable memory.
pub const MEMORY_SIZE: usize = 4096;

/// Address at which programs are loaded and execution starts.
pub const START_ADDRESS: u16 = 0x200;

/// Framebuffer width in pixels.
pub const VIDEO_WIDTH: usize = 64;

/// Framebuffer height in pixels.
pub const VIDEO_HEIGHT: usize = 32;

/// Number of pixels in the framebuffer.
pub const VIDEO_SIZE: usize = 2048;

/// Number of general-purpose registers.
pub const REGISTER_COUNT: usize = 16;

/// Number of keys on the keypad.
pub const KEY_COUNT: usize = 16;

/// Depth of the call stack.
pub const STACK_DEPTH: usize = 16;

/// Index of the flag register.
pub const FLAG: usize = 0xF;

/// The fatal conditions of a run.
#[derive(Debug, Clone, Copy, PartialEq, Eq, Structural)]
pub enum Chip8Error {
    /// A program does not fit between the start address and the end of memory.
    RomTooLarge,
    /// A call was made with all sixteen stack slots in use.
    StackOverflow,
    /// A return was made with an empty stack.
    StackUnderflow,
    /// An instruction fetch or an index-register access fell outside memory.
    MemoryOutOfBounds,
    /// The operating system's random source could not deliver a byte.
    RandomUnavailable,
}

/// The whole observable machine, as mathematical values.
pub struct MachineState {
    pub registers: Seq<u8>,
    pub memory: Seq<u8>,
    pub index: u16,
    pub pc: u16,
    pub stack: Seq<u16>,
    pub sp: u8,
    pub delay_timer: u8,
    pub sound_timer: u8,
    pub keypad: Seq<bool>,
    pub video: Seq<bool>,
    pub opcode: u16,
}

/// Sizes of the sequences match the hardware, and the stack pointer is in range.
pub open spec fn wf(m: MachineState) -> bool {
    &&& m.registers.len() == REGISTER_COUNT
    &&& m.memory.len() == MEMORY_SIZE
    &&& m.stack.len() == STACK_DEPTH
    &&& m.keypad.len() == KEY_COUNT
    &&& m.video.len() == VIDEO_SIZE
    &&& m.sp <= STACK_DEPTH
}

/// Bits 12-15: the instruction family.
pub open spec fn family(op: u16) -> u16 {
    (op & 0xF000) >> 12
}

/// Bits 8-11: the first register operand.
pub open spec fn x_of(op: u16) -> u16 {
    (op & 0x0F00) >> 8
}

/// Bits 4-7: the second register operand.
pub open spec fn y_of(op: u16) -> u16 {
    (op & 0x00F0) >> 4
}

/// Bits 0-3: the 4-bit immediate.
pub open spec fn n_of(op: u16) -> u16 {
    op & 0x000F
}

/// Bits 0-7: the 8-bit immediate.
pub open spec fn nn_of(op: u16) -> u8 {
    (op & 0x00FF) as u8
}

/// Bits 0-11: the 12-bit address.
pub open spec fn nnn_of(op: u16) -> u16 {
    op & 0x0FFF
}

/// Every field extracted from an instruction word lies in its window.
pub proof fn lemma_fields_in_range(op: u16)
    ensures
        family(op) < 16,
        x_of(op) < 16,
        y_of(op) < 16,
        n_of(op) < 16,
        nnn_of(op) < 4096,
        nn_of(op) as u16 == op & 0x00FF,
{
    assert((op & 0xF000) >> 12 < 16) by (bit_vector);
    assert((op & 0x0F00) >> 8 < 16) by (bit_vector);
    assert((op & 0x00F0) >> 4 < 16) by (bit_vector);
    assert(op & 0x000F < 16) by (bit_vector);
    assert(op & 0x0FFF < 4096) by (bit_vector);
    assert(op & 0x00FF < 256) by (bit_vector);
}

/// The big-endian word stored at `addr` and `addr + 1`.
pub open spec fn word_at(mem: Seq<u8>, addr: int) -> u16 {
    ((mem[addr] as u16) << 8) | (mem[addr + 1] as u16)
}

/// The machine with every value zeroed and an empty memory.
pub open spec fn zeroed_state() -> MachineState {
    MachineState {
        registers: Seq::new(REGISTER_COUNT as nat, |i: int| 0u8),
        memory: Seq::new(MEMORY_SIZE as nat, |i: int| 0u8),
        index: 0,
        pc: 0,
        stack: Seq::new(STACK_DEPTH as nat, |i: int| 0u16),
        sp: 0,
        delay_timer: 0,
        sound_timer: 0,
        keypad: Seq::new(KEY_COUNT as nat, |i: int| false),
        video: Seq::new(VIDEO_SIZE as nat, |i: int| false),
        opcode: 0,
    }
}

/// A freshly built machine: all zero but the font table and the program counter.
pub open spec fn initial_state() -> MachineState {
    MachineState {
        memory: Seq::new(
            MEMORY_SIZE as nat,
            |a: int|
                if 0x50 <= a < 0x50 + font_seq().len() {
                    font_seq()[a - 0x50]
                } else {
                    0u8
                },
        ),
        pc: START_ADDRESS,
        ..zeroed_state()
    }
}

/// Memory after a program is copied to the start address, or the error when it does not fit.
pub open spec fn load_program(m: MachineState, rom: Seq<u8>) -> Result<MachineState, Chip8Error> {
    if rom.len() > MEMORY_SIZE - START_ADDRESS {
        Err(Chip8Error::RomTooLarge)
    } else {
        Ok(
            MachineState {
                memory: Seq::new(
                    MEMORY_SIZE as nat,
                    |a: int|
                        if START_ADDRESS <= a < START_ADDRESS + rom.len() {
                            rom[a - START_ADDRESS]
                        } else {
                            m.memory[a]
                        },
                ),
                ..m
            },
        )
    }
}

pub open spec fn set_reg(m: MachineState, i: int, v: u8) -> MachineState {
    MachineState { registers: m.registers.update(i, v), ..m }
}

/// Skips the next instruction when `cond` holds.
pub open spec fn skip_if(m: MachineState, cond: bool) -> MachineState {
    if cond {
        MachineState { pc: (m.pc + 2) as u16, ..m }
    } else {
        m
    }
}

/// A key is held when its index is on the keypad and its state is down.
pub open spec fn key_down(m: MachineState, k: u8) -> bool {
    k < KEY_COUNT && m.keypad[k as int]
}

/// The first held key at index `i` or above; `KEY_COUNT` when there is none.
pub open spec fn first_pressed_from(keys: Seq<bool>, i: int) -> int
    decreases KEY_COUNT - i,
{
    if i >= KEY_COUNT {
        KEY_COUNT as int
    } else if keys[i] {
        i
    } else {
        first_pressed_from(keys, i + 1)
    }
}

/// `first_pressed_from` finds the least held key at or above `i`.
pub proof fn lemma_first_pressed(keys: Seq<bool>, i: int)
    requires
        0 <= i <= KEY_COUNT,
        keys.len() == KEY_COUNT,
    ensures
        i <= first_pressed_from(keys, i) <= KEY_COUNT,
        forall|j: int| i <= j < first_pressed_from(keys, i) ==> !keys[j],
        first_pressed_from(keys, i) < KEY_COUNT ==> keys[first_pressed_from(keys, i)],
    decreases KEY_COUNT - i,
{
    if i < KEY_COUNT && !keys[i] {
        lemma_first_pressed(keys, i + 1);
    }
}

/// 00EE: pop the return address.
pub open spec fn op_return(m: MachineState) -> Result<MachineState, Chip8Error> {
    if m.sp == 0 {
        Err(Chip8Error::StackUnderflow)
    } else {
        Ok(MachineState { sp: (m.sp - 1) as u8, pc: m.stack[m.sp - 1], ..m })
    }
}

/// 2NNN: push the program counter and jump.
pub open spec fn op_call(m: MachineState) -> Result<MachineState, Chip8Error> {
    if m.sp >= STACK_DEPTH {
        Err(Chip8Error::StackOverflow)
    } else {
        Ok(
            MachineState {
                stack: m.stack.update(m.sp as int, m.pc),
                sp: (m.sp + 1) as u8,
                pc: nnn_of(m.opcode),
                ..m
            },
        )
    }
}

/// Subtraction modulo 256.
pub open spec fn sub_mod(a: u8, b: u8) -> u8 {
    ((a - b) % 256) as u8
}

/// Family 8: register-to-register arithmetic, selected by `n`.
/// The flag is written first; the result is computed from the registers as they then stand.
pub open spec fn alu(m: MachineState, x: int, y: int, n: u16) -> MachineState {
    let vx = m.registers[x];
    let vy = m.registers[y];
    if n == 0x0 {
        set_reg(m, x, vy)
    } else if n == 0x1 {
        set_reg(m, x, vx | vy)
    } else if n == 0x2 {
        set_reg(m, x, vx & vy)
    } else if n == 0x3 {
        set_reg(m, x, vx ^ vy)
    } else if n == 0x4 {
        let sum = vx + vy;
        set_reg(set_reg(m, FLAG as int, if sum > 255 { 1 } else { 0 }), x, (sum % 256) as u8)
    } else if n == 0x5 {
        let m1 = set_reg(m, FLAG as int, if vx > vy { 1 } else { 0 });
        set_reg(m1, x, sub_mod(m1.registers[x], m1.registers[y]))
    } else if n == 0x6 {
        let m1 = set_reg(m, FLAG as int, vx & 1);
        set_reg(m1, x, m1.registers[x] >> 1)
    } else if n == 0x7 {
        let m1 = set_reg(m, FLAG as int, if vy > vx { 1 } else { 0 });
        set_reg(m1, x, sub_mod(m1.registers[y], m1.registers[x]))
    } else if n == 0xE {
        let m1 = set_reg(m, FLAG as int, (vx & 0x80) >> 7);
        set_reg(m1, x, ((m1.registers[x] * 2) % 256) as u8)
    } else {
        m
    }
}

/// Whether bit `c` of a sprite row, counted from the most significant, is set.
pub open spec fn sprite_bit(byte: u8, c: int) -> bool {
    byte & (0x80u8 >> (c as u8)) != 0
}

/// Whether the sprite of `n` rows at memory `I`, placed at `(x0, y0)`, flips pixel `p`.
pub open spec fn touches(m: MachineState, x0: int, y0: int, n: int, p: int) -> bool {
    let row = p / (VIDEO_WIDTH as int);
    let col = p % (VIDEO_WIDTH as int);
    &&& y0 <= row < y0 + n
    &&& x0 <= col < x0 + 8
    &&& sprite_bit(m.memory[m.index + (row - y0)], col - x0)
}

/// Framebuffer after XOR-drawing the sprite.
pub open spec fn drawn_video(m: MachineState, x0: int, y0: int, n: int) -> Seq<bool> {
    Seq::new(
        VIDEO_SIZE as nat,
        |p: int|
            if touches(m, x0, y0, n, p) {
                !m.video[p]
            } else {
                m.video[p]
            },
    )
}

/// Whether drawing the sprite turns off a pixel that was on.
pub open spec fn collides(m: MachineState, x0: int, y0: int, n: int) -> bool {
    exists|p: int| 0 <= p < VIDEO_SIZE && #[trigger] touches(m, x0, y0, n, p) && m.video[p]
}

/// DXYN: draw `n` sprite rows from memory at `I` at (Vx mod width, Vy mod height).
pub open spec fn op_draw(m: MachineState, x: int, y: int, n: int) -> Result<MachineState, Chip8Error> {
    let x0 = (m.registers[x] as int) % (VIDEO_WIDTH as int);
    let y0 = (m.registers[y] as int) % (VIDEO_HEIGHT as int);
    if n > 0 && m.index + n > MEMORY_SIZE {
        Err(Chip8Error::MemoryOutOfBounds)
    } else {
        Ok(
            MachineState {
                video: drawn_video(m, x0, y0, n),
                registers: m.registers.update(
                    FLAG as int,
                    if collides(m, x0, y0, n) {
                        1
                    } else {
                        0
                    },
                ),
                ..m
            },
        )
    }
}

/// FX0A: store the first held key in Vx, or stay on this instruction when none is held.
pub open spec fn op_wait_key(m: MachineState, x: int) -> MachineState {
    let k = first_pressed_from(m.keypad, 0);
    if k < KEY_COUNT {
        set_reg(m, x, k as u8)
    } else {
        MachineState { pc: (m.pc - 2) as u16, ..m }
    }
}

/// FX33: the decimal digits of Vx at I, I+1, I+2.
pub open spec fn op_bcd(m: MachineState, x: int) -> Result<MachineState, Chip8Error> {
    let v = m.registers[x];
    let i = m.index as int;
    if i + 2 >= MEMORY_SIZE {
        Err(Chip8Error::MemoryOutOfBounds)
    } else {
        Ok(
            MachineState {
                memory: m.memory.update(i, v / 100).update(i + 1, (v / 10) % 10).update(
                    i + 2,
                    v % 10,
                ),
                ..m
            },
        )
    }
}

/// FX55: registers 0..=x to memory at I.
pub open spec fn op_store(m: MachineState, x: int) -> Result<MachineState, Chip8Error> {
    let i = m.index as int;
    if i + x >= MEMORY_SIZE {
        Err(Chip8Error::MemoryOutOfBounds)
    } else {
        Ok(
            MachineState {
                memory: Seq::new(
                    MEMORY_SIZE as nat,
                    |a: int|
                        if i <= a <= i + x {
                            m.registers[a - i]
                        } else {
                            m.memory[a]
                        },
                ),
                ..m
            },
        )
    }
}

/// FX65: memory at I to registers 0..=x.
pub open spec fn op_load(m: MachineState, x: int) -> Result<MachineState, Chip8Error> {
    let i = m.index as int;
    if i + x >= MEMORY_SIZE {
        Err(Chip8Error::MemoryOutOfBounds)
    } else {
        Ok(
            MachineState {
                registers: Seq::new(
                    REGISTER_COUNT as nat,
                    |r: int|
                        if r <= x {
                            m.memory[i + r]
                        } else {
                            m.registers[r]
                        },
                ),
                ..m
            },
        )
    }
}

/// Family F: timers, keys, index arithmetic and memory blocks, selected by the low byte.
pub open spec fn misc(m: MachineState, x: int, nn: u8) -> Result<MachineState, Chip8Error> {
    let vx = m.registers[x];
    if nn == 0x07 {
        Ok(set_reg(m, x, m.delay_timer))
    } else if nn == 0x0A {
        Ok(op_wait_key(m, x))
    } else if nn == 0x15 {
        Ok(MachineState { delay_timer: vx, ..m })
    } else if nn == 0x18 {
        Ok(MachineState { sound_timer: vx, ..m })
    } else if nn == 0x1E {
        Ok(MachineState { index: ((m.index + vx) % 0x10000) as u16, ..m })
    } else if nn == 0x29 {
        Ok(MachineState { index: (0x50 + 5 * vx) as u16, ..m })
    } else if nn == 0x33 {
        op_bcd(m, x)
    } else if nn == 0x55 {
        op_store(m, x)
    } else if nn == 0x65 {
        op_load(m, x)
    } else {
        Ok(m)
    }
}

/// The effect of the instruction held in `m.opcode`; `rnd` is the random byte for CXNN.
/// Combinations without a meaning leave the machine as it is.
pub open spec fn execute(m: MachineState, rnd: u8) -> Result<MachineState, Chip8Error> {
    let op = m.opcode;
    let f = family(op);
    let x = x_of(op) as int;
    let y = y_of(op) as int;
    let n = n_of(op);
    let nn = nn_of(op);
    let nnn = nnn_of(op);
    let vx = m.registers[x];
    let vy = m.registers[y];
    if f == 0x0 {
        if n == 0x0 {
            Ok(MachineState { video: Seq::new(VIDEO_SIZE as nat, |p: int| false), ..m })
        } else if n == 0xE {
            op_return(m)
        } else {
            Ok(m)
        }
    } else if f == 0x1 {
        Ok(MachineState { pc: nnn, ..m })
    } else if f == 0x2 {
        op_call(m)
    } else if f == 0x3 {
        Ok(skip_if(m, vx == nn))
    } else if f == 0x4 {
        Ok(skip_if(m, vx != nn))
    } else if f == 0x5 {
        Ok(skip_if(m, vx == vy))
    } else if f == 0x6 {
        Ok(set_reg(m, x, nn))
    } else if f == 0x7 {
        Ok(set_reg(m, x, ((vx + nn) % 256) as u8))
    } else if f == 0x8 {
        Ok(alu(m, x, y, n))
    } else if f == 0x9 {
        Ok(skip_if(m, vx != vy))
    } else if f == 0xA {
        Ok(MachineState { index: nnn, ..m })
    } else if f == 0xB {
        Ok(MachineState { pc: (nnn + m.registers[0]) as u16, ..m })
    } else if f == 0xC {
        Ok(set_reg(m, x, rnd & nn))
    } else if f == 0xD {
        op_draw(m, x, y, n as int)
    } else if f == 0xE {
        if n == 0xE {
            Ok(skip_if(m, key_down(m, vx)))
        } else if n == 0x1 {
            Ok(skip_if(m, !key_down(m, vx)))
        } else {
            Ok(m)
        }
    } else {
        misc(m, x, nn)
    }
}

/// One timer tick: each non-zero timer goes down by one.
pub open spec fn tick(m: MachineState) -> MachineState {
    MachineState {
        delay_timer: if m.delay_timer > 0 { (m.delay_timer - 1) as u8 } else { 0 },
        sound_timer: if m.sound_timer > 0 { (m.sound_timer - 1) as u8 } else { 0 },
        ..m
    }
}

/// One cycle: fetch the word at PC, advance PC by 2, execute, tick the timers.
pub open spec fn step(m: MachineState, rnd: u8) -> Result<MachineState, Chip8Error> {
    if m.pc + 1 >= MEMORY_SIZE {
        Err(Chip8Error::MemoryOutOfBounds)
    } else {
        let fetched = MachineState {
            opcode: word_at(m.memory, m.pc as int),
            pc: (m.pc + 2) as u16,
            ..m
        };
        match execute(fetched, rnd) {
            Ok(next) => Ok(tick(next)),
            Err(e) => Err(e),
        }
    }
}

/// `after` and `r` are what `expected` describes: the new state on success,
/// the same error and an untouched machine on failure.
pub open spec fn outcome(
    before: MachineState,
    after: MachineState,
    r: Result<(), Chip8Error>,
    expected: Result<MachineState, Chip8Error>,
) -> bool {
    match expected {
        Ok(next) => r is Ok && after == next,
        Err(e) => r == Err::<(), Chip8Error>(e) && after == before,
    }
}

} // verus!
