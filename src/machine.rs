//! The interpreter: machine state and the fetch-decode-execute cycle.
use vstd::prelude::*;

mod ops;

use crate::font::{fontset, font_seq, FONTSET_SIZE, FONTSET_START_ADDRESS};
use crate::semantics::{
    family, initial_state, load_program, outcome, step, tick, wf, word_at, zeroed_state, Chip8Error,
    MachineState, KEY_COUNT, MEMORY_SIZE, REGISTER_COUNT, STACK_DEPTH, START_ADDRESS, VIDEO_HEIGHT,
    VIDEO_SIZE, VIDEO_WIDTH,
};

verus! {

/// A CHIP-8 machine.
pub struct Chip8 {
    registers: [u8; REGISTER_COUNT],
    memory: [u8; MEMORY_SIZE],
    index: u16,
    pc: u16,
    stack: [u16; STACK_DEPTH],
    sp: u8,
    delay_timer: u8,
    sound_timer: u8,
    /// Key states, written by the input layer before a cycle.
    pub keypad: [bool; KEY_COUNT],
    /// Pixels, row-major, `true` when on; read by the rendering layer.
    pub video: [bool; VIDEO_SIZE],
    opcode: u16,
}

/// Memory holding the first `e` font bytes at the font address, zero elsewhere.
spec fn font_prefix(e: int) -> Seq<u8> {
    Seq::new(
        MEMORY_SIZE as nat,
        |a: int|
            if 0x50 <= a < 0x50 + e {
                font_seq()[a - 0x50]
            } else {
                0u8
            },
    )
}

/// `mem` with the first `e` bytes of `rom` copied to the start address.
spec fn rom_prefix(mem: Seq<u8>, rom: Seq<u8>, e: int) -> Seq<u8> {
    Seq::new(
        MEMORY_SIZE as nat,
        |a: int|
            if START_ADDRESS <= a < START_ADDRESS + e {
                rom[a - START_ADDRESS]
            } else {
                mem[a]
            },
    )
}

/// Whether the instruction at PC is CXNN, the one that needs a random byte.
pub open spec fn needs_random(m: MachineState) -> bool {
    m.pc + 1 < MEMORY_SIZE && family(word_at(m.memory, m.pc as int)) == 0xC
}

/// Relies on `rand::rngs::OsRng` through `rand::RngCore::try_fill_bytes`: one byte
/// from the operating system's random source, or `None` when the source reports
/// an error. Nothing is known of the byte.
#[verifier::external_body]
fn os_random_byte() -> (r: Option<u8>) {
    let mut buf = [0u8; 1];
    match rand::RngCore::try_fill_bytes(&mut rand::rngs::OsRng, &mut buf) {
        Ok(()) => Some(buf[0]),
        Err(_) => None,
    }
}

impl View for Chip8 {
    type V = MachineState;

    closed spec fn view(&self) -> MachineState {
        MachineState {
            registers: self.registers@,
            memory: self.memory@,
            index: self.index,
            pc: self.pc,
            stack: self.stack@,
            sp: self.sp,
            delay_timer: self.delay_timer,
            sound_timer: self.sound_timer,
            keypad: self.keypad@,
            video: self.video@,
            opcode: self.opcode,
        }
    }
}

impl Default for Chip8 {
    /// A machine with every register, timer and byte of memory at zero.
    fn default() -> (r: Self)
        ensures
            r@ == zeroed_state(),
            r.wf(),
    {
        let r = Chip8 {
            registers: [0u8; REGISTER_COUNT],
            memory: [0u8; MEMORY_SIZE],
            index: 0,
            pc: 0,
            stack: [0u16; STACK_DEPTH],
            sp: 0,
            delay_timer: 0,
            sound_timer: 0,
            keypad: [false; KEY_COUNT],
            video: [false; VIDEO_SIZE],
            opcode: 0,
        };
        assert(r@.registers =~= zeroed_state().registers);
        assert(r@.memory =~= zeroed_state().memory);
        assert(r@.stack =~= zeroed_state().stack);
        assert(r@.keypad =~= zeroed_state().keypad);
        assert(r@.video =~= zeroed_state().video);
        r
    }
}

impl Chip8 {
    /// The view is a well-formed machine.
    pub closed spec fn wf(&self) -> bool {
        wf(self@)
    }

    /// A machine with the font table in place and the program counter at the start address.
    pub fn new() -> (r: Self)
        ensures
            r@ == initial_state(),
            r.wf(),
    {
        let mut chip = Chip8::default();
        chip.pc = START_ADDRESS;
        let font = fontset();
        let base: usize = FONTSET_START_ADDRESS as usize;
        let mut e: usize = 0;
        assert(chip.memory@ =~= font_prefix(0));
        while e < FONTSET_SIZE
            invariant
                e <= FONTSET_SIZE,
                font@ == font_seq(),
                base == 0x50,
                chip@ == (MachineState {
                    memory: font_prefix(e as int),
                    pc: START_ADDRESS,
                    ..zeroed_state()
                }),
            decreases FONTSET_SIZE - e,
        {
            chip.memory[base + e] = font[e];
            e = e + 1;
            assert(chip.memory@ =~= font_prefix(e as int));
        }
        assert(chip@.memory =~= initial_state().memory);
        chip
    }

    /// Copies `rom` into memory from the start address on; fails when it does not fit.
    #[allow(non_snake_case)]
    pub fn load_ROM(&mut self, rom: &[u8]) -> (r: Result<(), Chip8Error>)
        requires
            old(self).wf(),
        ensures
            final(self).wf(),
            outcome(old(self)@, final(self)@, r, load_program(old(self)@, rom@)),
    {
        if rom.len() > MEMORY_SIZE - START_ADDRESS as usize {
            return Err(Chip8Error::RomTooLarge);
        }
        let ghost m0 = self@;
        let start: usize = START_ADDRESS as usize;
        let mut e: usize = 0;
        assert(self.memory@ =~= rom_prefix(m0.memory, rom@, 0));
        while e < rom.len()
            invariant
                e <= rom@.len() <= MEMORY_SIZE - START_ADDRESS,
                start == START_ADDRESS,
                wf(m0),
                self@ == (MachineState { memory: rom_prefix(m0.memory, rom@, e as int), ..m0 }),
            decreases rom@.len() - e,
        {
            self.memory[start + e] = rom[e];
            e = e + 1;
            assert(self.memory@ =~= rom_prefix(m0.memory, rom@, e as int));
        }
        assert(self@.memory =~= load_program(m0, rom@)->Ok_0.memory);
        Ok(())
    }
    /// Decrements each non-zero timer.
    fn tick(&mut self)
        ensures
            final(self)@ == tick(old(self)@),
    {
        if self.delay_timer > 0 {
            self.delay_timer = self.delay_timer - 1;
        }
        if self.sound_timer > 0 {
            self.sound_timer = self.sound_timer - 1;
        }
    }

    /// One cycle with `random` as the byte that CXNN draws: fetch the word at PC,
    /// advance PC by 2, execute, tick the timers. On a fatal condition the machine
    /// is left as it was and the error is returned.
    pub fn step(&mut self, random: u8) -> (r: Result<(), Chip8Error>)
        requires
            old(self).wf(),
        ensures
            final(self).wf(),
            outcome(old(self)@, final(self)@, r, step(old(self)@, random)),
    {
        if self.pc as usize + 1 >= MEMORY_SIZE {
            return Err(Chip8Error::MemoryOutOfBounds);
        }
        let saved_pc = self.pc;
        let saved_opcode = self.opcode;
        let pc = self.pc as usize;
        self.opcode = ((self.memory[pc] as u16) << 8) | (self.memory[pc + 1] as u16);
        self.pc = self.pc + 2;
        match self.dispatch(random) {
            Ok(()) => {
                self.tick();
                Ok(())
            },
            Err(e) => {
                self.pc = saved_pc;
                self.opcode = saved_opcode;
                Err(e)
            },
        }
    }

    /// One cycle. A random byte is drawn from the operating system only when the
    /// instruction at PC is CXNN; when that draw fails the machine is left as it was.
    pub fn cycle(&mut self) -> (r: Result<(), Chip8Error>)
        requires
            old(self).wf(),
        ensures
            final(self).wf(),
            !needs_random(old(self)@) ==> outcome(old(self)@, final(self)@, r, step(old(self)@, 0)),
            needs_random(old(self)@) ==> (r == Err::<(), Chip8Error>(Chip8Error::RandomUnavailable)
                && final(self)@ == old(self)@) || exists|b: u8|
                outcome(old(self)@, final(self)@, r, #[trigger] step(old(self)@, b)),
    {
        let pc = self.pc as usize;
        if pc + 1 < MEMORY_SIZE {
            let word = ((self.memory[pc] as u16) << 8) | (self.memory[pc + 1] as u16);
            if (word & 0xF000) >> 12 == 0xC {
                return match os_random_byte() {
                    Some(b) => self.step(b),
                    None => Err(Chip8Error::RandomUnavailable),
                };
            }
        }
        self.step(0)
    }

    /// Register `i`.
    pub fn register(&self, i: usize) -> (r: u8)
        requires
            i < REGISTER_COUNT,
        ensures
            r == self@.registers[i as int],
    {
        self.registers[i]
    }

    /// The byte at `addr`.
    pub fn memory_at(&self, addr: usize) -> (r: u8)
        requires
            addr < MEMORY_SIZE,
        ensures
            r == self@.memory[addr as int],
    {
        self.memory[addr]
    }

    /// The index register.
    pub fn index(&self) -> (r: u16)
        ensures
            r == self@.index,
    {
        self.index
    }

    /// The program counter.
    pub fn pc(&self) -> (r: u16)
        ensures
            r == self@.pc,
    {
        self.pc
    }

    /// The stack pointer: the number of return addresses on the stack.
    pub fn sp(&self) -> (r: u8)
        ensures
            r == self@.sp,
    {
        self.sp
    }

    /// The delay timer.
    pub fn delay_timer(&self) -> (r: u8)
        ensures
            r == self@.delay_timer,
    {
        self.delay_timer
    }

    /// The sound timer.
    pub fn sound_timer(&self) -> (r: u8)
        ensures
            r == self@.sound_timer,
    {
        self.sound_timer
    }

    /// Whether the tone sounds: the sound timer is non-zero.
    pub fn sound_on(&self) -> (r: bool)
        ensures
            r == (self@.sound_timer > 0),
    {
        self.sound_timer > 0
    }

    /// The instruction word fetched by the last cycle.
    pub fn opcode(&self) -> (r: u16)
        ensures
            r == self@.opcode,
    {
        self.opcode
    }

    /// The pixel in column `x` of row `y`.
    pub fn pixel(&self, x: usize, y: usize) -> (r: bool)
        requires
            x < VIDEO_WIDTH,
            y < VIDEO_HEIGHT,
        ensures
            r == self@.video[y * VIDEO_WIDTH + x],
    {
        self.video[y * VIDEO_WIDTH + x]
    }
}

} // verus!
