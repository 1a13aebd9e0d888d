//! Properties of the instruction set that hold on every machine state.
use vstd::prelude::*;

use crate::semantics::{
    collides, execute, family, lemma_fields_in_range,
    lemma_first_pressed, n_of, nn_of, nnn_of, step, touches, wf, word_at, x_of, y_of,
    MachineState, FLAG, KEY_COUNT, MEMORY_SIZE, VIDEO_HEIGHT, VIDEO_SIZE, VIDEO_WIDTH,
};

verus! {

/// A jump 1NNN sets the program counter to NNN in one cycle, whatever it was before.
pub proof fn lemma_jump_sets_pc(m: MachineState, rnd: u8)
    requires
        wf(m),
        m.pc + 1 < MEMORY_SIZE,
        family(word_at(m.memory, m.pc as int)) == 0x1,
    ensures
        step(m, rnd) is Ok,
        step(m, rnd)->Ok_0.pc == nnn_of(word_at(m.memory, m.pc as int)),
{
}

/// A cycle leaves the delay timer one lower, or at zero when it was zero,
/// unless the instruction is FX15, which loads the timer.
pub proof fn lemma_delay_ticks(m: MachineState, rnd: u8)
    requires
        wf(m),
        step(m, rnd) is Ok,
        !(family(word_at(m.memory, m.pc as int)) == 0xF && nn_of(word_at(m.memory, m.pc as int))
            == 0x15),
    ensures
        step(m, rnd)->Ok_0.delay_timer == if m.delay_timer > 0 {
            m.delay_timer - 1
        } else {
            0
        },
{
    lemma_fields_in_range(word_at(m.memory, m.pc as int));
}

/// FX0A with no key held leaves the program counter where it was, so the
/// instruction runs again on the next cycle; with key `k` the lowest one held,
/// it stores `k` in Vx and moves on to the next instruction.
pub proof fn lemma_wait_for_key(m: MachineState, rnd: u8, k: int)
    requires
        wf(m),
        m.pc + 1 < MEMORY_SIZE,
        family(word_at(m.memory, m.pc as int)) == 0xF,
        nn_of(word_at(m.memory, m.pc as int)) == 0x0A,
        0 <= k <= KEY_COUNT,
        forall|j: int| 0 <= j < k ==> !m.keypad[j],
        k < KEY_COUNT ==> m.keypad[k],
    ensures
        step(m, rnd) is Ok,
        k == KEY_COUNT ==> step(m, rnd)->Ok_0.pc == m.pc && step(m, rnd)->Ok_0.registers
            == m.registers,
        k < KEY_COUNT ==> step(m, rnd)->Ok_0.pc == m.pc + 2 && step(m, rnd)->Ok_0.registers
            == m.registers.update(x_of(word_at(m.memory, m.pc as int)) as int, k as u8),
{
    lemma_fields_in_range(word_at(m.memory, m.pc as int));
    lemma_first_pressed(m.keypad, 0);
}

/// FX55 followed by FX65 with the same X and I gives registers 0..=X back as
/// they were, whatever memory held before.
pub proof fn lemma_store_load_round_trip(m: MachineState, store: u16, load: u16, rnd: u8)
    requires
        wf(m),
        family(store) == 0xF,
        nn_of(store) == 0x55,
        family(load) == 0xF,
        nn_of(load) == 0x65,
        x_of(store) == x_of(load),
        execute(MachineState { opcode: store, ..m }, rnd) is Ok,
    ensures
        ({
            let stored = execute(MachineState { opcode: store, ..m }, rnd)->Ok_0;
            let loaded = execute(MachineState { opcode: load, ..stored }, rnd);
            loaded is Ok && loaded->Ok_0.registers == m.registers
        }),
{
    lemma_fields_in_range(store);
    let stored = execute(MachineState { opcode: store, ..m }, rnd)->Ok_0;
    let loaded = execute(MachineState { opcode: load, ..stored }, rnd)->Ok_0;
    assert(loaded.registers =~= m.registers);
}

/// Drawing the same sprite twice at the same place (coordinates not held in VF)
/// restores the framebuffer. On a framebuffer where the sprite's pixels are off
/// and it has at least one, the first draw reports no collision and the second
/// reports one.
pub proof fn lemma_draw_twice_restores(m: MachineState, rnd: u8)
    requires
        wf(m),
        family(m.opcode) == 0xD,
        x_of(m.opcode) != FLAG,
        y_of(m.opcode) != FLAG,
        execute(m, rnd) is Ok,
    ensures
        ({
            let once = execute(m, rnd)->Ok_0;
            let twice = execute(once, rnd);
            let x0 = (m.registers[x_of(m.opcode) as int] as int) % (VIDEO_WIDTH as int);
            let y0 = (m.registers[y_of(m.opcode) as int] as int) % (VIDEO_HEIGHT as int);
            let n = n_of(m.opcode) as int;
            &&& twice is Ok
            &&& twice->Ok_0.video == m.video
            &&& (exists|p: int| 0 <= p < VIDEO_SIZE && #[trigger] touches(m, x0, y0, n, p))
                && (forall|p: int|
                0 <= p < VIDEO_SIZE && #[trigger] touches(m, x0, y0, n, p) ==> !m.video[p])
                ==> once.registers[FLAG as int] == 0 && twice->Ok_0.registers[FLAG as int] == 1
        }),
{
    lemma_fields_in_range(m.opcode);
    let once = execute(m, rnd)->Ok_0;
    let x0 = (m.registers[x_of(m.opcode) as int] as int) % (VIDEO_WIDTH as int);
    let y0 = (m.registers[y_of(m.opcode) as int] as int) % (VIDEO_HEIGHT as int);
    let n = n_of(m.opcode) as int;
    assert(once.registers[x_of(m.opcode) as int] == m.registers[x_of(m.opcode) as int]);
    assert(once.registers[y_of(m.opcode) as int] == m.registers[y_of(m.opcode) as int]);
    assert forall|p: int| 0 <= p < VIDEO_SIZE implies #[trigger] touches(once, x0, y0, n, p)
        == touches(m, x0, y0, n, p) by {}
    let twice = execute(once, rnd)->Ok_0;
    assert(twice.video =~= m.video);
    if (exists|p: int| 0 <= p < VIDEO_SIZE && #[trigger] touches(m, x0, y0, n, p)) && (forall|p: int|
        0 <= p < VIDEO_SIZE && #[trigger] touches(m, x0, y0, n, p) ==> !m.video[p]) {
        let p = choose|p: int| 0 <= p < VIDEO_SIZE && #[trigger] touches(m, x0, y0, n, p);
        assert(touches(once, x0, y0, n, p) && once.video[p]);
        assert(collides(once, x0, y0, n));
        assert(!collides(m, x0, y0, n));
    }
}

} // verus!
