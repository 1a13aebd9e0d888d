//! One handler per instruction; each does exactly what `execute` says.
//! Only CXNN reads the random byte, so the other handlers state their effect
//! with the byte fixed at 0.
use vstd::prelude::*;

use super::Chip8;
use crate::semantics::{
    execute, family, lemma_fields_in_range, n_of, nn_of, nnn_of, outcome, wf, x_of, y_of,
    first_pressed_from, op_load, op_store, Chip8Error, MachineState, FLAG, KEY_COUNT, MEMORY_SIZE,
    REGISTER_COUNT, touches, drawn_video, collides, VIDEO_WIDTH, VIDEO_HEIGHT, VIDEO_SIZE,
};
use vstd::arithmetic::div_mod::{lemma_fundamental_div_mod, lemma_fundamental_div_mod_converse};
use crate::font::FONTSET_START_ADDRESS;

verus! {

/// A machine between fetch and execute: PC has been advanced past a word in memory.
pub open spec fn fetched(m: MachineState) -> bool {
    wf(m) && 2 <= m.pc <= 4096
}

/// Pixels the draw loop has flipped once it stands at row `row`, column `col`.
spec fn drawn_before(m: MachineState, x0: int, y0: int, n: int, p: int, row: int, col: int) -> bool {
    &&& touches(m, x0, y0, n, p)
    &&& {
        let r = p / (VIDEO_WIDTH as int) - y0;
        let c = p % (VIDEO_WIDTH as int) - x0;
        r < row || (r == row && c < col)
    }
}

spec fn partial_video(m: MachineState, x0: int, y0: int, n: int, row: int, col: int) -> Seq<bool> {
    Seq::new(
        VIDEO_SIZE as nat,
        |p: int|
            if drawn_before(m, x0, y0, n, p, row, col) {
                !m.video[p]
            } else {
                m.video[p]
            },
    )
}

spec fn partial_collision(m: MachineState, x0: int, y0: int, n: int, row: int, col: int) -> bool {
    exists|p: int|
        0 <= p < VIDEO_SIZE && #[trigger] drawn_before(m, x0, y0, n, p, row, col) && m.video[p]
}

proof fn lemma_collision_eq(
    m: MachineState,
    x0: int,
    y0: int,
    n: int,
    r1: int,
    c1: int,
    r2: int,
    c2: int,
)
    requires
        forall|q: int|
            0 <= q < VIDEO_SIZE ==> #[trigger] drawn_before(m, x0, y0, n, q, r1, c1) == drawn_before(
                m,
                x0,
                y0,
                n,
                q,
                r2,
                c2,
            ),
    ensures
        partial_collision(m, x0, y0, n, r1, c1) == partial_collision(m, x0, y0, n, r2, c2),
{
    if partial_collision(m, x0, y0, n, r1, c1) {
        let q = choose|q: int|
            0 <= q < VIDEO_SIZE && #[trigger] drawn_before(m, x0, y0, n, q, r1, c1) && m.video[q];
        assert(drawn_before(m, x0, y0, n, q, r2, c2));
    }
    if partial_collision(m, x0, y0, n, r2, c2) {
        let q = choose|q: int|
            0 <= q < VIDEO_SIZE && #[trigger] drawn_before(m, x0, y0, n, q, r2, c2) && m.video[q];
        assert(drawn_before(m, x0, y0, n, q, r1, c1));
    }
}

proof fn lemma_pixel_bounds(q: int)
    requires
        0 <= q < VIDEO_SIZE,
    ensures
        0 <= q / (VIDEO_WIDTH as int) < VIDEO_HEIGHT,
        0 <= q % (VIDEO_WIDTH as int) < VIDEO_WIDTH,
{
    lemma_fundamental_div_mod(q, VIDEO_WIDTH as int);
}

proof fn lemma_pixel_coords(r: int, c: int)
    requires
        0 <= r < VIDEO_HEIGHT,
        0 <= c < VIDEO_WIDTH,
    ensures
        (r * VIDEO_WIDTH + c) / (VIDEO_WIDTH as int) == r,
        (r * VIDEO_WIDTH + c) % (VIDEO_WIDTH as int) == c,
        0 <= r * VIDEO_WIDTH + c < VIDEO_SIZE,
{
    lemma_fundamental_div_mod_converse(r * VIDEO_WIDTH + c, VIDEO_WIDTH as int, r, c);
}

proof fn lemma_same_pixel(q: int, r: int, c: int)
    requires
        0 <= q < VIDEO_SIZE,
        0 <= r < VIDEO_HEIGHT,
        0 <= c < VIDEO_WIDTH,
    ensures
        (q / (VIDEO_WIDTH as int) == r && q % (VIDEO_WIDTH as int) == c) <==> q == r * VIDEO_WIDTH + c,
{
    lemma_fundamental_div_mod(q, VIDEO_WIDTH as int);
    lemma_pixel_coords(r, c);
}

impl Chip8 {
    fn x_reg(&self) -> (r: usize)
        ensures
            r == x_of(self.opcode),
            r < 16,
    {
        proof {
            lemma_fields_in_range(self.opcode);
        }
        ((self.opcode & 0x0F00) >> 8) as usize
    }

    fn y_reg(&self) -> (r: usize)
        ensures
            r == y_of(self.opcode),
            r < 16,
    {
        proof {
            lemma_fields_in_range(self.opcode);
        }
        ((self.opcode & 0x00F0) >> 4) as usize
    }

    fn byte_nn(&self) -> (r: u8)
        ensures
            r == nn_of(self.opcode),
    {
        (self.opcode & 0x00FF) as u8
    }

    fn addr_nnn(&self) -> (r: u16)
        ensures
            r == nnn_of(self.opcode),
            r < 4096,
    {
        proof {
            lemma_fields_in_range(self.opcode);
        }
        self.opcode & 0x0FFF
    }

    /// 00E0: clear the screen.
    fn op_00e0(&mut self)
        requires
            fetched(old(self)@),
            family(old(self).opcode) == 0x0,
            n_of(old(self).opcode) == 0x0,
        ensures
            execute(old(self)@, 0) == Ok::<MachineState, Chip8Error>(final(self)@),
    {
        let mut p: usize = 0;
        while p < self.video.len()
            invariant
                self@ == (MachineState { video: self@.video, ..old(self)@ }),
                p <= self.video@.len(),
                forall|q: int| 0 <= q < p ==> !self.video@[q],
            decreases self.video@.len() - p,
        {
            self.video[p] = false;
            p = p + 1;
        }
        assert(self.video@ =~= Seq::new(self.video@.len(), |q: int| false));
    }

    /// 00EE: return from a subroutine.
    fn op_00ee(&mut self) -> (r: Result<(), Chip8Error>)
        requires
            fetched(old(self)@),
            family(old(self).opcode) == 0x0,
            n_of(old(self).opcode) == 0xE,
        ensures
            outcome(old(self)@, final(self)@, r, execute(old(self)@, 0)),
    {
        if self.sp == 0 {
            return Err(Chip8Error::StackUnderflow);
        }
        self.sp = self.sp - 1;
        self.pc = self.stack[self.sp as usize];
        Ok(())
    }

    /// 1NNN: jump.
    fn op_1nnn(&mut self)
        requires
            fetched(old(self)@),
            family(old(self).opcode) == 0x1,
        ensures
            execute(old(self)@, 0) == Ok::<MachineState, Chip8Error>(final(self)@),
    {
        self.pc = self.addr_nnn();
    }

    /// 2NNN: call a subroutine.
    fn op_2nnn(&mut self) -> (r: Result<(), Chip8Error>)
        requires
            fetched(old(self)@),
            family(old(self).opcode) == 0x2,
        ensures
            outcome(old(self)@, final(self)@, r, execute(old(self)@, 0)),
    {
        if self.sp as usize >= self.stack.len() {
            return Err(Chip8Error::StackOverflow);
        }
        self.stack[self.sp as usize] = self.pc;
        self.sp = self.sp + 1;
        self.pc = self.addr_nnn();
        Ok(())
    }

    /// 3XNN: skip when Vx equals NN.
    fn op_3xkk(&mut self)
        requires
            fetched(old(self)@),
            family(old(self).opcode) == 0x3,
        ensures
            execute(old(self)@, 0) == Ok::<MachineState, Chip8Error>(final(self)@),
    {
        let x = self.x_reg();
        if self.registers[x] == self.byte_nn() {
            self.pc = self.pc + 2;
        }
    }

    /// 4XNN: skip when Vx differs from NN.
    fn op_4xkk(&mut self)
        requires
            fetched(old(self)@),
            family(old(self).opcode) == 0x4,
        ensures
            execute(old(self)@, 0) == Ok::<MachineState, Chip8Error>(final(self)@),
    {
        let x = self.x_reg();
        if self.registers[x] != self.byte_nn() {
            self.pc = self.pc + 2;
        }
    }

    /// 5XY0: skip when Vx equals Vy.
    fn op_5xy0(&mut self)
        requires
            fetched(old(self)@),
            family(old(self).opcode) == 0x5,
        ensures
            execute(old(self)@, 0) == Ok::<MachineState, Chip8Error>(final(self)@),
    {
        let x = self.x_reg();
        let y = self.y_reg();
        if self.registers[x] == self.registers[y] {
            self.pc = self.pc + 2;
        }
    }

    /// 6XNN: Vx := NN.
    fn op_6xkk(&mut self)
        requires
            fetched(old(self)@),
            family(old(self).opcode) == 0x6,
        ensures
            execute(old(self)@, 0) == Ok::<MachineState, Chip8Error>(final(self)@),
    {
        let x = self.x_reg();
        self.registers[x] = self.byte_nn();
    }

    /// 7XNN: Vx := Vx + NN, modulo 256.
    fn op_7xkk(&mut self)
        requires
            fetched(old(self)@),
            family(old(self).opcode) == 0x7,
        ensures
            execute(old(self)@, 0) == Ok::<MachineState, Chip8Error>(final(self)@),
    {
        let x = self.x_reg();
        self.registers[x] = self.registers[x].wrapping_add(self.byte_nn());
    }

    /// 8XY0: Vx := Vy.
    fn op_8xy0(&mut self)
        requires
            fetched(old(self)@),
            family(old(self).opcode) == 0x8,
            n_of(old(self).opcode) == 0x0,
        ensures
            execute(old(self)@, 0) == Ok::<MachineState, Chip8Error>(final(self)@),
    {
        let x = self.x_reg();
        let y = self.y_reg();
        self.registers[x] = self.registers[y];
    }

    /// 8XY1: Vx := Vx OR Vy.
    fn op_8xy1(&mut self)
        requires
            fetched(old(self)@),
            family(old(self).opcode) == 0x8,
            n_of(old(self).opcode) == 0x1,
        ensures
            execute(old(self)@, 0) == Ok::<MachineState, Chip8Error>(final(self)@),
    {
        let x = self.x_reg();
        let y = self.y_reg();
        self.registers[x] = self.registers[x] | self.registers[y];
    }

    /// 8XY2: Vx := Vx AND Vy.
    fn op_8xy2(&mut self)
        requires
            fetched(old(self)@),
            family(old(self).opcode) == 0x8,
            n_of(old(self).opcode) == 0x2,
        ensures
            execute(old(self)@, 0) == Ok::<MachineState, Chip8Error>(final(self)@),
    {
        let x = self.x_reg();
        let y = self.y_reg();
        self.registers[x] = self.registers[x] & self.registers[y];
    }

    /// 8XY3: Vx := Vx XOR Vy.
    fn op_8xy3(&mut self)
        requires
            fetched(old(self)@),
            family(old(self).opcode) == 0x8,
            n_of(old(self).opcode) == 0x3,
        ensures
            execute(old(self)@, 0) == Ok::<MachineState, Chip8Error>(final(self)@),
    {
        let x = self.x_reg();
        let y = self.y_reg();
        self.registers[x] = self.registers[x] ^ self.registers[y];
    }

    /// 8XY4: Vx := Vx + Vy, VF := carry.
    fn op_8xy4(&mut self)
        requires
            fetched(old(self)@),
            family(old(self).opcode) == 0x8,
            n_of(old(self).opcode) == 0x4,
        ensures
            execute(old(self)@, 0) == Ok::<MachineState, Chip8Error>(final(self)@),
    {
        let x = self.x_reg();
        let y = self.y_reg();
        let sum: u16 = self.registers[x] as u16 + self.registers[y] as u16;
        if sum > 255 {
            self.registers[FLAG] = 1;
        } else {
            self.registers[FLAG] = 0;
        }
        self.registers[x] = (sum % 256) as u8;
    }

    /// 8XY5: VF := no borrow, Vx := Vx - Vy modulo 256.
    fn op_8xy5(&mut self)
        requires
            fetched(old(self)@),
            family(old(self).opcode) == 0x8,
            n_of(old(self).opcode) == 0x5,
        ensures
            execute(old(self)@, 0) == Ok::<MachineState, Chip8Error>(final(self)@),
    {
        let x = self.x_reg();
        let y = self.y_reg();
        if self.registers[x] > self.registers[y] {
            self.registers[FLAG] = 1;
        } else {
            self.registers[FLAG] = 0;
        }
        self.registers[x] = self.registers[x].wrapping_sub(self.registers[y]);
    }

    /// 8XY6: VF := low bit of Vx, Vx := Vx >> 1.
    fn op_8xy6(&mut self)
        requires
            fetched(old(self)@),
            family(old(self).opcode) == 0x8,
            n_of(old(self).opcode) == 0x6,
        ensures
            execute(old(self)@, 0) == Ok::<MachineState, Chip8Error>(final(self)@),
    {
        let x = self.x_reg();
        self.registers[FLAG] = self.registers[x] & 1;
        self.registers[x] = self.registers[x] >> 1;
    }

    /// 8XY7: VF := no borrow, Vx := Vy - Vx modulo 256.
    fn op_8xy7(&mut self)
        requires
            fetched(old(self)@),
            family(old(self).opcode) == 0x8,
            n_of(old(self).opcode) == 0x7,
        ensures
            execute(old(self)@, 0) == Ok::<MachineState, Chip8Error>(final(self)@),
    {
        let x = self.x_reg();
        let y = self.y_reg();
        if self.registers[x] < self.registers[y] {
            self.registers[FLAG] = 1;
        } else {
            self.registers[FLAG] = 0;
        }
        self.registers[x] = self.registers[y].wrapping_sub(self.registers[x]);
    }

    /// 8XYE: VF := high bit of Vx, Vx := Vx << 1 modulo 256.
    fn op_8xye(&mut self)
        requires
            fetched(old(self)@),
            family(old(self).opcode) == 0x8,
            n_of(old(self).opcode) == 0xE,
        ensures
            execute(old(self)@, 0) == Ok::<MachineState, Chip8Error>(final(self)@),
    {
        let x = self.x_reg();
        self.registers[FLAG] = (self.registers[x] & 0x80) >> 7;
        self.registers[x] = ((self.registers[x] as u16 * 2) % 256) as u8;
    }

    /// 9XY0: skip when Vx differs from Vy.
    fn op_9xy0(&mut self)
        requires
            fetched(old(self)@),
            family(old(self).opcode) == 0x9,
        ensures
            execute(old(self)@, 0) == Ok::<MachineState, Chip8Error>(final(self)@),
    {
        let x = self.x_reg();
        let y = self.y_reg();
        if self.registers[x] != self.registers[y] {
            self.pc = self.pc + 2;
        }
    }

    /// ANNN: I := NNN.
    fn op_annn(&mut self)
        requires
            fetched(old(self)@),
            family(old(self).opcode) == 0xA,
        ensures
            execute(old(self)@, 0) == Ok::<MachineState, Chip8Error>(final(self)@),
    {
        self.index = self.addr_nnn();
    }

    /// BNNN: jump to NNN + V0.
    fn op_bnnn(&mut self)
        requires
            fetched(old(self)@),
            family(old(self).opcode) == 0xB,
        ensures
            execute(old(self)@, 0) == Ok::<MachineState, Chip8Error>(final(self)@),
    {
        self.pc = self.addr_nnn() + self.registers[0] as u16;
    }

    /// CXNN: Vx := random AND NN.
    fn op_cxkk(&mut self, random: u8)
        requires
            fetched(old(self)@),
            family(old(self).opcode) == 0xC,
        ensures
            execute(old(self)@, random) == Ok::<MachineState, Chip8Error>(final(self)@),
    {
        let x = self.x_reg();
        self.registers[x] = random & self.byte_nn();
    }
    /// EX9E: skip when the key numbered Vx is held.
    fn op_ex9e(&mut self)
        requires
            fetched(old(self)@),
            family(old(self).opcode) == 0xE,
            n_of(old(self).opcode) == 0xE,
        ensures
            execute(old(self)@, 0) == Ok::<MachineState, Chip8Error>(final(self)@),
    {
        let x = self.x_reg();
        let key = self.registers[x] as usize;
        if key < KEY_COUNT && self.keypad[key] {
            self.pc = self.pc + 2;
        }
    }

    /// EXA1: skip when the key numbered Vx is not held.
    fn op_exa1(&mut self)
        requires
            fetched(old(self)@),
            family(old(self).opcode) == 0xE,
            n_of(old(self).opcode) == 0x1,
        ensures
            execute(old(self)@, 0) == Ok::<MachineState, Chip8Error>(final(self)@),
    {
        let x = self.x_reg();
        let key = self.registers[x] as usize;
        if !(key < KEY_COUNT && self.keypad[key]) {
            self.pc = self.pc + 2;
        }
    }

    /// FX07: Vx := delay timer.
    fn op_fx07(&mut self)
        requires
            fetched(old(self)@),
            family(old(self).opcode) == 0xF,
            nn_of(old(self).opcode) == 0x07,
        ensures
            execute(old(self)@, 0) == Ok::<MachineState, Chip8Error>(final(self)@),
    {
        let x = self.x_reg();
        self.registers[x] = self.delay_timer;
    }

    /// FX0A: wait for a key; Vx := the lowest held key, or stay on this instruction.
    fn op_fx0a(&mut self)
        requires
            fetched(old(self)@),
            family(old(self).opcode) == 0xF,
            nn_of(old(self).opcode) == 0x0A,
        ensures
            execute(old(self)@, 0) == Ok::<MachineState, Chip8Error>(final(self)@),
    {
        let x = self.x_reg();
        let mut k: usize = 0;
        while k < KEY_COUNT
            invariant
                k <= KEY_COUNT,
                x < 16,
                x == x_of(self.opcode),
                self@ == old(self)@,
                fetched(old(self)@),
                family(old(self).opcode) == 0xF,
                nn_of(old(self).opcode) == 0x0A,
                first_pressed_from(self.keypad@, 0) == first_pressed_from(self.keypad@, k as int),
            decreases KEY_COUNT - k,
        {
            if self.keypad[k] {
                assert(first_pressed_from(self.keypad@, k as int) == k);
                self.registers[x] = k as u8;
                assert(self@.registers =~= old(self)@.registers.update(x as int, k as u8));
                return;
            }
            k = k + 1;
        }
        self.pc = self.pc - 2;
    }

    /// FX15: delay timer := Vx.
    fn op_fx15(&mut self)
        requires
            fetched(old(self)@),
            family(old(self).opcode) == 0xF,
            nn_of(old(self).opcode) == 0x15,
        ensures
            execute(old(self)@, 0) == Ok::<MachineState, Chip8Error>(final(self)@),
    {
        let x = self.x_reg();
        self.delay_timer = self.registers[x];
    }

    /// FX18: sound timer := Vx.
    fn op_fx18(&mut self)
        requires
            fetched(old(self)@),
            family(old(self).opcode) == 0xF,
            nn_of(old(self).opcode) == 0x18,
        ensures
            execute(old(self)@, 0) == Ok::<MachineState, Chip8Error>(final(self)@),
    {
        let x = self.x_reg();
        self.sound_timer = self.registers[x];
    }

    /// FX1E: I := I + Vx, modulo 2^16.
    fn op_fx1e(&mut self)
        requires
            fetched(old(self)@),
            family(old(self).opcode) == 0xF,
            nn_of(old(self).opcode) == 0x1E,
        ensures
            execute(old(self)@, 0) == Ok::<MachineState, Chip8Error>(final(self)@),
    {
        let x = self.x_reg();
        self.index = self.index.wrapping_add(self.registers[x] as u16);
    }

    /// FX29: I := address of the glyph for the digit in Vx.
    fn op_fx29(&mut self)
        requires
            fetched(old(self)@),
            family(old(self).opcode) == 0xF,
            nn_of(old(self).opcode) == 0x29,
        ensures
            execute(old(self)@, 0) == Ok::<MachineState, Chip8Error>(final(self)@),
    {
        let x = self.x_reg();
        let digit = self.registers[x] as u16;
        self.index = FONTSET_START_ADDRESS + 5 * digit;
    }

    /// FX33: hundreds, tens and ones of Vx at I, I+1, I+2.
    fn op_fx33(&mut self) -> (r: Result<(), Chip8Error>)
        requires
            fetched(old(self)@),
            family(old(self).opcode) == 0xF,
            nn_of(old(self).opcode) == 0x33,
        ensures
            outcome(old(self)@, final(self)@, r, execute(old(self)@, 0)),
    {
        let x = self.x_reg();
        let i = self.index as usize;
        if i + 2 >= MEMORY_SIZE {
            return Err(Chip8Error::MemoryOutOfBounds);
        }
        let value = self.registers[x];
        self.memory[i] = value / 100;
        self.memory[i + 1] = (value / 10) % 10;
        self.memory[i + 2] = value % 10;
        Ok(())
    }

    /// FX55: registers 0..=X to memory from I.
    fn op_fx55(&mut self) -> (r: Result<(), Chip8Error>)
        requires
            fetched(old(self)@),
            family(old(self).opcode) == 0xF,
            nn_of(old(self).opcode) == 0x55,
        ensures
            outcome(old(self)@, final(self)@, r, execute(old(self)@, 0)),
    {
        let x = self.x_reg();
        let base = self.index as usize;
        if base + x >= MEMORY_SIZE {
            return Err(Chip8Error::MemoryOutOfBounds);
        }
        let ghost m0 = self@;
        let mut r: usize = 0;
        while r <= x
            invariant
                x < 16,
                r <= x + 1,
                base + x < MEMORY_SIZE,
                base == m0.index,
                wf(m0),
                self@ == (MachineState { memory: self@.memory, ..m0 }),
                self@.memory.len() == MEMORY_SIZE,
                forall|a: int|
                    0 <= a < MEMORY_SIZE ==> #[trigger] self@.memory[a] == if base <= a < base + r {
                        m0.registers[a - base]
                    } else {
                        m0.memory[a]
                    },
            decreases x + 1 - r,
        {
            self.memory[base + r] = self.registers[r];
            r = r + 1;
        }
        assert(self@.memory =~= op_store(m0, x as int)->Ok_0.memory);
        Ok(())
    }

    /// FX65: memory from I to registers 0..=X.
    fn op_fx65(&mut self) -> (r: Result<(), Chip8Error>)
        requires
            fetched(old(self)@),
            family(old(self).opcode) == 0xF,
            nn_of(old(self).opcode) == 0x65,
        ensures
            outcome(old(self)@, final(self)@, r, execute(old(self)@, 0)),
    {
        let x = self.x_reg();
        let base = self.index as usize;
        if base + x >= MEMORY_SIZE {
            return Err(Chip8Error::MemoryOutOfBounds);
        }
        let ghost m0 = self@;
        let mut r: usize = 0;
        while r <= x
            invariant
                x < 16,
                r <= x + 1,
                base + x < MEMORY_SIZE,
                base == m0.index,
                wf(m0),
                self@ == (MachineState { registers: self@.registers, ..m0 }),
                self@.registers.len() == REGISTER_COUNT,
                forall|i: int|
                    0 <= i < REGISTER_COUNT ==> #[trigger] self@.registers[i] == if i < r {
                        m0.memory[base + i]
                    } else {
                        m0.registers[i]
                    },
            decreases x + 1 - r,
        {
            self.registers[r] = self.memory[base + r];
            r = r + 1;
        }
        assert(self@.registers =~= op_load(m0, x as int)->Ok_0.registers);
        Ok(())
    }
    /// DXYN: XOR-draw an `n`-row sprite from memory at I; VF := collision.
    fn op_dxyn(&mut self) -> (r: Result<(), Chip8Error>)
        requires
            fetched(old(self)@),
            family(old(self).opcode) == 0xD,
        ensures
            outcome(old(self)@, final(self)@, r, execute(old(self)@, 0)),
    {
        let x = self.x_reg();
        let y = self.y_reg();
        proof {
            lemma_fields_in_range(self.opcode);
        }
        let n = (self.opcode & 0x000F) as usize;
        let base = self.index as usize;
        if n > 0 && base + n > MEMORY_SIZE {
            return Err(Chip8Error::MemoryOutOfBounds);
        }
        let x0 = (self.registers[x] as usize) % VIDEO_WIDTH;
        let y0 = (self.registers[y] as usize) % VIDEO_HEIGHT;
        let ghost m0 = self@;
        let ghost gx0 = x0 as int;
        let ghost gy0 = y0 as int;
        let ghost gn = n as int;
        self.registers[FLAG] = 0;
        assert(self@.video =~= partial_video(m0, gx0, gy0, gn, 0, 0));
        assert(!partial_collision(m0, gx0, gy0, gn, 0, 0));
        let mut row: usize = 0;
        while row < n
            invariant
                wf(m0),
                n < 16,
                row <= n,
                x0 < VIDEO_WIDTH,
                y0 < VIDEO_HEIGHT,
                gx0 == x0,
                gy0 == y0,
                gn == n,
                base == m0.index,
                n == 0 || base + n <= MEMORY_SIZE,
                self@ == (MachineState {
                    video: partial_video(m0, gx0, gy0, gn, row as int, 0),
                    registers: m0.registers.update(
                        FLAG as int,
                        if partial_collision(m0, gx0, gy0, gn, row as int, 0) {
                            1
                        } else {
                            0
                        },
                    ),
                    ..m0
                }),
            decreases n - row,
        {
            let byte = self.memory[base + row];
            let mut col: usize = 0;
            while col < 8
                invariant
                    wf(m0),
                    n < 16,
                    row < n,
                    col <= 8,
                    x0 < VIDEO_WIDTH,
                    y0 < VIDEO_HEIGHT,
                    gx0 == x0,
                    gy0 == y0,
                    gn == n,
                    base == m0.index,
                    base + n <= MEMORY_SIZE,
                    byte == m0.memory[base + row],
                    self@ == (MachineState {
                        video: partial_video(m0, gx0, gy0, gn, row as int, col as int),
                        registers: m0.registers.update(
                            FLAG as int,
                            if partial_collision(m0, gx0, gy0, gn, row as int, col as int) {
                                1
                            } else {
                                0
                            },
                        ),
                        ..m0
                    }),
                decreases 8 - col,
            {
                let ghost before = self@;
                if y0 + row < VIDEO_HEIGHT && x0 + col < VIDEO_WIDTH && byte & (0x80u8 >> (col as u8)) != 0 {
                    let p = (y0 + row) * VIDEO_WIDTH + (x0 + col);
                    proof {
                        lemma_pixel_coords((y0 + row) as int, (x0 + col) as int);
                        assert(touches(m0, gx0, gy0, gn, p as int));
                        assert forall|q: int| 0 <= q < VIDEO_SIZE implies
                            #[trigger] drawn_before(m0, gx0, gy0, gn, q, row as int, col + 1)
                                == (drawn_before(m0, gx0, gy0, gn, q, row as int, col as int) || q == p) by {
                            lemma_same_pixel(q, (y0 + row) as int, (x0 + col) as int);
                        }
                    }
                    if self.video[p] {
                        self.registers[FLAG] = 1;
                    }
                    self.video[p] = !self.video[p];
                    proof {
                        assert(self@.video =~= partial_video(m0, gx0, gy0, gn, row as int, col + 1));
                        if m0.video[p as int] {
                            assert(drawn_before(m0, gx0, gy0, gn, p as int, row as int, col + 1));
                            assert(partial_collision(m0, gx0, gy0, gn, row as int, col + 1));
                        } else {
                            if partial_collision(m0, gx0, gy0, gn, row as int, col + 1) {
                                let q = choose|q: int| 0 <= q < VIDEO_SIZE
                                    && #[trigger] drawn_before(m0, gx0, gy0, gn, q, row as int, col + 1)
                                    && m0.video[q];
                                assert(drawn_before(m0, gx0, gy0, gn, q, row as int, col as int));
                            }
                            if partial_collision(m0, gx0, gy0, gn, row as int, col as int) {
                                let q = choose|q: int| 0 <= q < VIDEO_SIZE
                                    && #[trigger] drawn_before(m0, gx0, gy0, gn, q, row as int, col as int)
                                    && m0.video[q];
                                assert(drawn_before(m0, gx0, gy0, gn, q, row as int, col + 1));
                            }
                        }
                        assert(self@.registers =~= m0.registers.update(
                            FLAG as int,
                            if partial_collision(m0, gx0, gy0, gn, row as int, col + 1) { 1 } else { 0 },
                        ));
                    }
                } else {
                    proof {
                        assert forall|q: int| 0 <= q < VIDEO_SIZE implies
                            #[trigger] drawn_before(m0, gx0, gy0, gn, q, row as int, col + 1)
                                == drawn_before(m0, gx0, gy0, gn, q, row as int, col as int) by {
                            lemma_pixel_bounds(q);
                            if y0 + row < VIDEO_HEIGHT && x0 + col < VIDEO_WIDTH {
                                lemma_same_pixel(q, (y0 + row) as int, (x0 + col) as int);
                            }
                        }
                        assert(self@.video =~= partial_video(m0, gx0, gy0, gn, row as int, col + 1));
                        lemma_collision_eq(m0, gx0, gy0, gn, row as int, col + 1, row as int, col as int);
                    }
                }
                col = col + 1;
            }
            proof {
                assert forall|q: int| 0 <= q < VIDEO_SIZE implies
                    #[trigger] drawn_before(m0, gx0, gy0, gn, q, row + 1, 0)
                        == drawn_before(m0, gx0, gy0, gn, q, row as int, 8) by {}
                assert(self@.video =~= partial_video(m0, gx0, gy0, gn, row + 1, 0));
                lemma_collision_eq(m0, gx0, gy0, gn, row + 1, 0, row as int, 8);
            }
            row = row + 1;
        }
        proof {
            assert forall|q: int| 0 <= q < VIDEO_SIZE implies
                #[trigger] drawn_before(m0, gx0, gy0, gn, q, gn, 0)
                    == touches(m0, gx0, gy0, gn, q) by {}
            assert(self@.video =~= drawn_video(m0, gx0, gy0, gn));
            if collides(m0, gx0, gy0, gn) {
                let q = choose|q: int| 0 <= q < VIDEO_SIZE && #[trigger] touches(m0, gx0, gy0, gn, q)
                    && m0.video[q];
                assert(drawn_before(m0, gx0, gy0, gn, q, gn, 0));
            }
            if partial_collision(m0, gx0, gy0, gn, gn, 0) {
                let q = choose|q: int| 0 <= q < VIDEO_SIZE
                    && #[trigger] drawn_before(m0, gx0, gy0, gn, q, gn, 0) && m0.video[q];
                assert(touches(m0, gx0, gy0, gn, q));
            }
        }
        Ok(())
    }
    /// Family 0, by low nibble.
    fn table0(&mut self) -> (r: Result<(), Chip8Error>)
        requires
            fetched(old(self)@),
            family(old(self).opcode) == 0x0,
        ensures
            outcome(old(self)@, final(self)@, r, execute(old(self)@, 0)),
    {
        let n = self.opcode & 0x000F;
        if n == 0x0 {
            self.op_00e0();
            Ok(())
        } else if n == 0xE {
            self.op_00ee()
        } else {
            Ok(())
        }
    }

    /// Family 8, by low nibble.
    fn table8(&mut self)
        requires
            fetched(old(self)@),
            family(old(self).opcode) == 0x8,
        ensures
            execute(old(self)@, 0) == Ok::<MachineState, Chip8Error>(final(self)@),
    {
        let n = self.opcode & 0x000F;
        if n == 0x0 {
            self.op_8xy0();
        } else if n == 0x1 {
            self.op_8xy1();
        } else if n == 0x2 {
            self.op_8xy2();
        } else if n == 0x3 {
            self.op_8xy3();
        } else if n == 0x4 {
            self.op_8xy4();
        } else if n == 0x5 {
            self.op_8xy5();
        } else if n == 0x6 {
            self.op_8xy6();
        } else if n == 0x7 {
            self.op_8xy7();
        } else if n == 0xE {
            self.op_8xye();
        }
    }

    /// Family E, by low nibble.
    fn table_e(&mut self)
        requires
            fetched(old(self)@),
            family(old(self).opcode) == 0xE,
        ensures
            execute(old(self)@, 0) == Ok::<MachineState, Chip8Error>(final(self)@),
    {
        let n = self.opcode & 0x000F;
        if n == 0xE {
            self.op_ex9e();
        } else if n == 0x1 {
            self.op_exa1();
        }
    }

    /// Family F, by low byte.
    fn table_f(&mut self) -> (r: Result<(), Chip8Error>)
        requires
            fetched(old(self)@),
            family(old(self).opcode) == 0xF,
        ensures
            outcome(old(self)@, final(self)@, r, execute(old(self)@, 0)),
    {
        let nn = self.byte_nn();
        if nn == 0x07 {
            self.op_fx07();
        } else if nn == 0x0A {
            self.op_fx0a();
        } else if nn == 0x15 {
            self.op_fx15();
        } else if nn == 0x18 {
            self.op_fx18();
        } else if nn == 0x1E {
            self.op_fx1e();
        } else if nn == 0x29 {
            self.op_fx29();
        } else if nn == 0x33 {
            return self.op_fx33();
        } else if nn == 0x55 {
            return self.op_fx55();
        } else if nn == 0x65 {
            return self.op_fx65();
        }
        Ok(())
    }

    /// Executes the instruction in `opcode`, with `random` as the byte for CXNN.
    pub(crate) fn dispatch(&mut self, random: u8) -> (r: Result<(), Chip8Error>)
        requires
            fetched(old(self)@),
        ensures
            outcome(old(self)@, final(self)@, r, execute(old(self)@, random)),
    {
        proof {
            lemma_fields_in_range(self.opcode);
        }
        let f = (self.opcode & 0xF000) >> 12;
        if f == 0x0 {
            self.table0()
        } else if f == 0x1 {
            self.op_1nnn();
            Ok(())
        } else if f == 0x2 {
            self.op_2nnn()
        } else if f == 0x3 {
            self.op_3xkk();
            Ok(())
        } else if f == 0x4 {
            self.op_4xkk();
            Ok(())
        } else if f == 0x5 {
            self.op_5xy0();
            Ok(())
        } else if f == 0x6 {
            self.op_6xkk();
            Ok(())
        } else if f == 0x7 {
            self.op_7xkk();
            Ok(())
        } else if f == 0x8 {
            self.table8();
            Ok(())
        } else if f == 0x9 {
            self.op_9xy0();
            Ok(())
        } else if f == 0xA {
            self.op_annn();
            Ok(())
        } else if f == 0xB {
            self.op_bnnn();
            Ok(())
        } else if f == 0xC {
            self.op_cxkk(random);
            Ok(())
        } else if f == 0xD {
            self.op_dxyn()
        } else if f == 0xE {
            self.table_e();
            Ok(())
        } else {
            self.table_f()
        }
    }
}

} // verus!
