//! The abstract machine: what each instruction does to the whole state.

use vstd::prelude::*;

verus! {

/// The machine state as mathematical values.
///
/// `video` is indexed by row, then column; `stack[1..=sp]` holds the pending
/// return addresses, the newest at `stack[sp]`.
#[verifier::ext_equal]
pub struct Chip8Model {
    pub video: Seq<Seq<u8>>,
    pub video_draw: bool,
    pub memory: Seq<u8>,
    pub stack: Seq<u16>,
    pub v: Seq<u8>,
    pub i: u16,
    pub pc: u16,
    pub sp: u8,
    pub dt: u8,
    pub st: u8,
    pub keypad: Seq<bool>,
}

/// Deepest call nesting: slot 0 of the stack is never used.
pub open spec fn max_sp() -> u8 {
    15
}

impl Chip8Model {
    /// Sizes of every component, the stack pointer's range, and pixels that
    /// are either 0 or 1.
    pub open spec fn wf(self) -> bool {
        &&& self.video.len() == 32
        &&& forall|r: int| 0 <= r < 32 ==> (#[trigger] self.video[r]).len() == 64
        &&& forall|r: int, c: int|
            0 <= r < 32 && 0 <= c < 64 ==> #[trigger] self.video[r][c] <= 1
        &&& self.memory.len() == 4096
        &&& self.stack.len() == 16
        &&& self.v.len() == 16
        &&& self.keypad.len() == 16
        &&& self.sp <= max_sp()
    }
}

// ---------------------------------------------------------------------------
// Instruction fields

/// The four 4-bit fields of an instruction, most significant first.
pub open spec fn nibbles(op: u16) -> (u8, u8, u8, u8) {
    (
        ((op & 0xF000) >> 12) as u8,
        ((op & 0x0F00) >> 8) as u8,
        ((op & 0x00F0) >> 4) as u8,
        (op & 0x000F) as u8,
    )
}

/// Register operand `x` (bits 8..12).
pub open spec fn op_x(op: u16) -> int {
    ((op & 0x0F00) >> 8) as int
}

/// Register operand `y` (bits 4..8).
pub open spec fn op_y(op: u16) -> int {
    ((op & 0x00F0) >> 4) as int
}

/// Immediate byte `kk` (bits 0..8).
pub open spec fn op_kk(op: u16) -> u8 {
    (op & 0x00FF) as u8
}

/// Immediate address `nnn` (bits 0..12).
pub open spec fn op_nnn(op: u16) -> u16 {
    op & 0x0FFF
}

/// Immediate count `n` (bits 0..4).
pub open spec fn op_n(op: u16) -> int {
    (op & 0x000F) as int
}

/// The instruction word at `pc`: big-endian, or 0 where `pc + 1` lies
/// outside memory.
pub open spec fn fetch(s: Chip8Model) -> u16 {
    if s.pc + 1 >= 4096 {
        0
    } else {
        (s.memory[s.pc as int] * 256 + s.memory[s.pc + 1]) as u16
    }
}

// ---------------------------------------------------------------------------
// Helpers of the semantics

/// `pc + k` in 16-bit arithmetic.
pub open spec fn advance(pc: u16, k: int) -> u16 {
    ((pc + k) % 0x10000) as u16
}

/// Continue with the next instruction.
pub open spec fn next(s: Chip8Model) -> Chip8Model {
    Chip8Model { pc: advance(s.pc, 2), ..s }
}

/// Skip the next instruction when `cond` holds.
pub open spec fn skip_if(s: Chip8Model, cond: bool) -> Chip8Model {
    Chip8Model { pc: advance(s.pc, if cond { 4 } else { 2 }), ..s }
}

/// Set `Vx` and continue.
pub open spec fn set_vx(s: Chip8Model, x: int, val: u8) -> Chip8Model {
    next(Chip8Model { v: s.v.update(x, val), ..s })
}

/// Set `Vx`, then `VF`, and continue.
pub open spec fn set_vx_vf(s: Chip8Model, x: int, val: u8, flag: u8) -> Chip8Model {
    next(Chip8Model { v: s.v.update(x, val).update(15, flag), ..s })
}

/// Memory address `i + k`, wrapped into memory.
pub open spec fn mem_addr(i: u16, k: int) -> int {
    (i + k) % 4096
}

/// A key value names a key of the keypad that is held down.
pub open spec fn key_down(s: Chip8Model, key: u8) -> bool {
    key < 16 && s.keypad[key as int]
}

/// The lowest held key at or above `from`, or 16 if there is none.
pub open spec fn first_pressed(keys: Seq<bool>, from: int) -> int
    decreases 16 - from,
{
    if from >= 16 {
        16
    } else if keys[from] {
        from
    } else {
        first_pressed(keys, from + 1)
    }
}

/// A framebuffer with every pixel off.
pub open spec fn blank_frame() -> Seq<Seq<u8>> {
    Seq::new(32, |r: int| Seq::new(64, |c: int| 0u8))
}

/// Bit `k` of a sprite row, counted from the most significant bit.
pub open spec fn sprite_bit(row: u8, k: int) -> bool {
    (row & (0x80u8 >> (k as u8))) != 0
}

/// The sprite of `n` rows at `memory[I..]`, drawn with its top left corner
/// at `(sx, sy)`, sets pixel `(r, c)` (coordinates wrap around the edges).
pub open spec fn sprite_covers(s: Chip8Model, sx: int, sy: int, n: int, r: int, c: int) -> bool {
    let dy = (r - sy) % 32;
    let dx = (c - sx) % 64;
    dy < n && dx < 8 && sprite_bit(s.memory[mem_addr(s.i, dy)], dx)
}

// ---------------------------------------------------------------------------
// One spec function per instruction

/// `00E0` CLS: every pixel off, frame changed.
pub open spec fn cls(s: Chip8Model) -> Chip8Model {
    next(Chip8Model { video: blank_frame(), video_draw: true, ..s })
}

/// `00EE` RET: resume at the newest return address. With no return address
/// pending the instruction is ignored.
pub open spec fn ret(s: Chip8Model) -> Chip8Model {
    if s.sp == 0 {
        next(s)
    } else {
        Chip8Model { pc: s.stack[s.sp as int], sp: (s.sp - 1) as u8, ..s }
    }
}

/// `1nnn` JP: continue at `nnn`.
pub open spec fn jump(s: Chip8Model, op: u16) -> Chip8Model {
    Chip8Model { pc: op_nnn(op), ..s }
}

/// `2nnn` CALL: push the address of the next instruction and continue at
/// `nnn`. With every stack slot taken the instruction is ignored.
pub open spec fn call(s: Chip8Model, op: u16) -> Chip8Model {
    if s.sp >= max_sp() {
        next(s)
    } else {
        Chip8Model {
            sp: (s.sp + 1) as u8,
            stack: s.stack.update(s.sp + 1, advance(s.pc, 2)),
            pc: op_nnn(op),
            ..s
        }
    }
}

/// `8xy4` ADD: `Vx = Vx + Vy` modulo 256, `VF` = carry.
pub open spec fn add_carry(s: Chip8Model, op: u16) -> Chip8Model {
    let sum = s.v[op_x(op)] + s.v[op_y(op)];
    set_vx_vf(s, op_x(op), (sum % 256) as u8, if sum > 255 { 1 } else { 0 })
}

/// `8xy5` SUB: `Vx = Vx - Vy` modulo 256, `VF` = no borrow.
pub open spec fn sub_borrow(s: Chip8Model, op: u16) -> Chip8Model {
    let vx = s.v[op_x(op)];
    let vy = s.v[op_y(op)];
    set_vx_vf(s, op_x(op), ((vx - vy + 256) % 256) as u8, if vx >= vy { 1 } else { 0 })
}

/// `8xy7` SUBN: `Vx = Vy - Vx` modulo 256, `VF` = no borrow.
pub open spec fn subn_borrow(s: Chip8Model, op: u16) -> Chip8Model {
    let vx = s.v[op_x(op)];
    let vy = s.v[op_y(op)];
    set_vx_vf(s, op_x(op), ((vy - vx + 256) % 256) as u8, if vy >= vx { 1 } else { 0 })
}

/// `8xy6` SHR: `Vx = Vx / 2`, `VF` = the bit shifted out.
pub open spec fn shift_right(s: Chip8Model, op: u16) -> Chip8Model {
    let vx = s.v[op_x(op)];
    set_vx_vf(s, op_x(op), vx / 2, vx % 2)
}

/// `8xyE` SHL: `Vx = Vx * 2` modulo 256, `VF` = the bit shifted out.
pub open spec fn shift_left(s: Chip8Model, op: u16) -> Chip8Model {
    let vx = s.v[op_x(op)];
    set_vx_vf(s, op_x(op), ((vx * 2) % 256) as u8, vx / 128)
}

/// `Dxyn` DRW: toggle every pixel that the sprite covers; `VF` is 1 exactly
/// when one of them was on; frame changed.
pub open spec fn draw(s: Chip8Model, op: u16) -> Chip8Model {
    let sx = s.v[op_x(op)] as int;
    let sy = s.v[op_y(op)] as int;
    let n = op_n(op);
    let collision = exists|r: int, c: int|
        0 <= r < 32 && 0 <= c < 64 && #[trigger] sprite_covers(s, sx, sy, n, r, c) && s.video[r][c] == 1;
    next(
        Chip8Model {
            video: Seq::new(
                32,
                |r: int|
                    Seq::new(
                        64,
                        |c: int|
                            if sprite_covers(s, sx, sy, n, r, c) {
                                s.video[r][c] ^ 1
                            } else {
                                s.video[r][c]
                            },
                    ),
            ),
            v: s.v.update(15, if collision { 1 } else { 0 }),
            video_draw: true,
            ..s
        },
    )
}

/// `Fx0A` LD Vx, K: store the lowest held key and continue; with no key
/// held, stay on this instruction.
pub open spec fn wait_key(s: Chip8Model, op: u16) -> Chip8Model {
    let k = first_pressed(s.keypad, 0);
    if k < 16 {
        set_vx(s, op_x(op), k as u8)
    } else {
        s
    }
}

/// `Fx33` LD B, Vx: hundreds, tens and units of `Vx` at `I`, `I+1`, `I+2`.
pub open spec fn store_bcd(s: Chip8Model, op: u16) -> Chip8Model {
    let vx = s.v[op_x(op)];
    next(
        Chip8Model {
            memory: s.memory.update(mem_addr(s.i, 0), vx / 100).update(
                mem_addr(s.i, 1),
                (vx % 100) / 10,
            ).update(mem_addr(s.i, 2), vx % 10),
            ..s
        },
    )
}

/// `Fx55` LD [I], Vx: `V0..=Vx` to memory from `I` on, then `I += x + 1`.
pub open spec fn store_regs(s: Chip8Model, op: u16) -> Chip8Model {
    let x = op_x(op);
    next(
        Chip8Model {
            memory: Seq::new(
                4096,
                |a: int|
                    {
                        let k = (a - s.i) % 4096;
                        if k <= x {
                            s.v[k]
                        } else {
                            s.memory[a]
                        }
                    },
            ),
            i: advance(s.i, x + 1),
            ..s
        },
    )
}

/// `Fx65` LD Vx, [I]: `V0..=Vx` from memory at `I` on, then `I += x + 1`.
pub open spec fn load_regs(s: Chip8Model, op: u16) -> Chip8Model {
    let x = op_x(op);
    next(
        Chip8Model {
            v: Seq::new(16, |k: int| if k <= x { s.memory[mem_addr(s.i, k)] } else { s.v[k] }),
            i: advance(s.i, x + 1),
            ..s
        },
    )
}

/// The effect of instruction `op`; `rnd` is the random byte that `Cxkk`
/// masks.
pub open spec fn execute(s: Chip8Model, op: u16, rnd: u8) -> Chip8Model {
    let x = op_x(op);
    let y = op_y(op);
    let vx = s.v[x];
    let vy = s.v[y];
    match nibbles(op) {
        (0x0, 0x0, 0x0, 0x0) => next(s),
        (0x0, 0x0, 0xE, 0x0) => cls(s),
        (0x0, 0x0, 0xE, 0xE) => ret(s),
        (0x1, _, _, _) => jump(s, op),
        (0x2, _, _, _) => call(s, op),
        (0x3, _, _, _) => skip_if(s, vx == op_kk(op)),
        (0x4, _, _, _) => skip_if(s, vx != op_kk(op)),
        (0x5, _, _, 0x0) => skip_if(s, vx == vy),
        (0x6, _, _, _) => set_vx(s, x, op_kk(op)),
        (0x7, _, _, _) => set_vx(s, x, ((vx + op_kk(op)) % 256) as u8),
        (0x8, _, _, 0x0) => set_vx(s, x, vy),
        (0x8, _, _, 0x1) => set_vx_vf(s, x, vx | vy, 0),
        (0x8, _, _, 0x2) => set_vx_vf(s, x, vx & vy, 0),
        (0x8, _, _, 0x3) => set_vx_vf(s, x, vx ^ vy, 0),
        (0x8, _, _, 0x4) => add_carry(s, op),
        (0x8, _, _, 0x5) => sub_borrow(s, op),
        (0x8, _, _, 0x6) => shift_right(s, op),
        (0x8, _, _, 0x7) => subn_borrow(s, op),
        (0x8, _, _, 0xE) => shift_left(s, op),
        (0x9, _, _, 0x0) => skip_if(s, vx != vy),
        (0xA, _, _, _) => next(Chip8Model { i: op_nnn(op), ..s }),
        (0xB, _, _, _) => Chip8Model { pc: (op_nnn(op) + s.v[0]) as u16, ..s },
        (0xC, _, _, _) => set_vx(s, x, rnd & op_kk(op)),
        (0xD, _, _, _) => draw(s, op),
        (0xE, _, 0x9, 0xE) => skip_if(s, key_down(s, vx)),
        (0xE, _, 0xA, 0x1) => skip_if(s, !key_down(s, vx)),
        (0xF, _, 0x0, 0x7) => set_vx(s, x, s.dt),
        (0xF, _, 0x0, 0xA) => wait_key(s, op),
        (0xF, _, 0x1, 0x5) => next(Chip8Model { dt: vx, ..s }),
        (0xF, _, 0x1, 0x8) => next(Chip8Model { st: vx, ..s }),
        (0xF, _, 0x1, 0xE) => next(Chip8Model { i: advance(s.i, vx as int), ..s }),
        (0xF, _, 0x2, 0x9) => next(Chip8Model { i: (vx * 5) as u16, ..s }),
        (0xF, _, 0x3, 0x3) => store_bcd(s, op),
        (0xF, _, 0x5, 0x5) => store_regs(s, op),
        (0xF, _, 0x6, 0x5) => load_regs(s, op),
        _ => next(s),
    }
}

/// One cycle: execute the fetched instruction, then hand over the changed
/// flag (the state keeps it cleared).
pub open spec fn step(s: Chip8Model, rnd: u8) -> Chip8Model {
    Chip8Model { video_draw: false, ..execute(s, fetch(s), rnd) }
}

/// Whether the cycle from `s` changed the frame.
pub open spec fn step_draws(s: Chip8Model, rnd: u8) -> bool {
    execute(s, fetch(s), rnd).video_draw
}

/// One timer tick: each timer above zero goes down by one.
pub open spec fn tick(s: Chip8Model) -> Chip8Model {
    Chip8Model {
        dt: if s.dt > 0 { (s.dt - 1) as u8 } else { 0 },
        st: if s.st > 0 { (s.st - 1) as u8 } else { 0 },
        ..s
    }
}

// ---------------------------------------------------------------------------
// The machine at power-on

/// The sixteen hexadecimal digit glyphs, five rows each.
pub open spec fn font() -> Seq<u8> {
    seq![
        0xF0, 0x90, 0x90, 0x90, 0xF0, 0x20, 0x60, 0x20, 0x20, 0x70, 0xF0, 0x10, 0xF0, 0x80, 0xF0, 0xF0,
        0x10, 0xF0, 0x10, 0xF0, 0x90, 0x90, 0xF0, 0x10, 0x10, 0xF0, 0x80, 0xF0, 0x10, 0xF0, 0xF0, 0x80,
        0xF0, 0x90, 0xF0, 0xF0, 0x10, 0x20, 0x40, 0x40, 0xF0, 0x90, 0xF0, 0x90, 0xF0, 0xF0, 0x90, 0xF0,
        0x10, 0xF0, 0xF0, 0x90, 0xF0, 0x90, 0x90, 0xE0, 0x90, 0xE0, 0x90, 0xE0, 0xF0, 0x80, 0x80, 0x80,
        0xF0, 0xE0, 0x90, 0x90, 0x90, 0xE0, 0xF0, 0x80, 0xF0, 0x80, 0xF0, 0xF0, 0x80, 0xF0, 0x80, 0x80,
    ]
}

/// The state after construction: font at address 0, everything else zero,
/// `pc` at the program start.
pub open spec fn initial() -> Chip8Model {
    Chip8Model {
        video: blank_frame(),
        video_draw: false,
        memory: Seq::new(4096, |a: int| if a < 80 { font()[a] } else { 0u8 }),
        stack: Seq::new(16, |k: int| 0u16),
        v: Seq::new(16, |k: int| 0u8),
        i: 0,
        pc: 0x200,
        sp: 0,
        dt: 0,
        st: 0,
        keypad: Seq::new(16, |k: int| false),
    }
}

/// `rom` copied to memory from the program start on.
pub open spec fn with_rom(s: Chip8Model, rom: Seq<u8>) -> Chip8Model {
    Chip8Model {
        memory: Seq::new(
            4096,
            |a: int| if 0x200 <= a < 0x200 + rom.len() { rom[a - 0x200] } else { s.memory[a] },
        ),
        ..s
    }
}

// ---------------------------------------------------------------------------
// Invariant

/// Every instruction keeps the machine well formed: component sizes, the
/// stack pointer's range and binary pixels.
pub proof fn lemma_execute_wf(s: Chip8Model, op: u16, rnd: u8)
    requires
        s.wf(),
    ensures
        execute(s, op, rnd).wf(),
{
    assert(op_x(op) < 16 && op_y(op) < 16) by (bit_vector);
    if nibbles(op).0 == 0xD {
        let d = draw(s, op);
        assert forall|r: int, c: int| 0 <= r < 32 && 0 <= c < 64 implies #[trigger] d.video[r][c] <= 1 by {
            let p = s.video[r][c];
            assert(p <= 1 ==> p ^ 1 <= 1) by (bit_vector);
        }
    }
    if nibbles(op).0 == 0xF && nibbles(op).2 == 0x0 && nibbles(op).3 == 0xA {
        lemma_first_pressed_range(s.keypad, 0);
    }
}

/// `first_pressed` lies between its start and 16.
proof fn lemma_first_pressed_range(keys: Seq<bool>, from: int)
    requires
        0 <= from <= 16,
    ensures
        from <= first_pressed(keys, from) <= 16,
    decreases 16 - from,
{
    if from < 16 && !keys[from] {
        lemma_first_pressed_range(keys, from + 1);
    }
}

/// Address `a` lies `k` places after `i`, counting around memory.
pub(crate) proof fn lemma_wrapped_offset(i: int, k: int, a: int)
    requires
        0 <= i,
        0 <= k < 4096,
        0 <= a < 4096,
    ensures
        (a == (i + k) % 4096) == ((a - i) % 4096 == k),
{
}

} // verus!
