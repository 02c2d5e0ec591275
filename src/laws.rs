//! Properties of the instruction set that hold for every machine state.

use vstd::prelude::*;

use crate::machine::{
    blank_frame, execute, initial, lemma_wrapped_offset, mem_addr, next, nibbles, op_n, op_x,
    op_y, sprite_covers, with_rom, Chip8Model,
};

verus! {

/// `8xy4` sets `VF` to 1 exactly when the sum of `Vx` and `Vy` before the
/// instruction exceeds 255, and leaves the sum modulo 256 in `Vx` (unless `x`
/// names `VF` itself, which then holds the flag).
pub proof fn lemma_add_carry(s: Chip8Model, op: u16, rnd: u8)
    requires
        s.wf(),
        nibbles(op).0 == 0x8,
        nibbles(op).3 == 0x4,
    ensures
        ({
            let t = execute(s, op, rnd);
            let sum = s.v[op_x(op)] + s.v[op_y(op)];
            &&& t.v[15] == (if sum > 255 { 1u8 } else { 0u8 })
            &&& op_x(op) != 15 ==> t.v[op_x(op)] == sum % 256
        }),
{
    assert(op_x(op) < 16) by (bit_vector);
}

/// `8xy5` sets `VF` to 1 exactly when `Vx >= Vy` before the instruction,
/// and leaves `(Vx - Vy) mod 256` in `Vx` (unless `x` names `VF` itself).
pub proof fn lemma_sub_borrow(s: Chip8Model, op: u16, rnd: u8)
    requires
        s.wf(),
        nibbles(op).0 == 0x8,
        nibbles(op).3 == 0x5,
    ensures
        ({
            let t = execute(s, op, rnd);
            let vx = s.v[op_x(op)];
            let vy = s.v[op_y(op)];
            &&& t.v[15] == (if vx >= vy { 1u8 } else { 0u8 })
            &&& op_x(op) != 15 ==> t.v[op_x(op)] == (vx - vy) % 256
        }),
{
    assert(op_x(op) < 16) by (bit_vector);
}

/// Drawing a sprite twice in a row at the same place restores the
/// framebuffer, and the second draw reports a collision exactly when the
/// sprite covers a pixel that the first draw switched on. The position
/// registers must not be `VF`, which the first draw overwrites.
pub proof fn lemma_draw_twice_restores(s: Chip8Model, op: u16, rnd: u8)
    requires
        s.wf(),
        nibbles(op).0 == 0xD,
        op_x(op) != 15,
        op_y(op) != 15,
    ensures
        ({
            let s1 = execute(s, op, rnd);
            let s2 = execute(s1, op, rnd);
            let sx = s.v[op_x(op)] as int;
            let sy = s.v[op_y(op)] as int;
            &&& s2.video == s.video
            &&& s2.v[15] == 1 <==> exists|r: int, c: int|
                0 <= r < 32 && 0 <= c < 64 && #[trigger] sprite_covers(s, sx, sy, op_n(op), r, c)
                    && s.video[r][c] == 0
        }),
{
    assert(op_x(op) < 16 && op_y(op) < 16) by (bit_vector);
    let s1 = execute(s, op, rnd);
    let s2 = execute(s1, op, rnd);
    let sx = s.v[op_x(op)] as int;
    let sy = s.v[op_y(op)] as int;
    let n = op_n(op);
    assert(s1.v[op_x(op)] == s.v[op_x(op)] && s1.v[op_y(op)] == s.v[op_y(op)]);
    assert forall|r: int, c: int| 0 <= r < 32 && 0 <= c < 64 implies #[trigger] sprite_covers(
        s1,
        sx,
        sy,
        n,
        r,
        c,
    ) == sprite_covers(s, sx, sy, n, r, c) by {}
    assert forall|r: int| 0 <= r < 32 implies #[trigger] s2.video[r] =~= s.video[r] by {
        assert forall|c: int| 0 <= c < 64 implies s2.video[r][c] == s.video[r][c] by {
            let p = s.video[r][c];
            assert((p ^ 1) ^ 1 == p) by (bit_vector);
        }
    }
    assert(s2.video =~= s.video);
    assert forall|r: int, c: int|
        0 <= r < 32 && 0 <= c < 64 && sprite_covers(s, sx, sy, n, r, c) implies (s1.video[r][c]
        == 1) == (#[trigger] s.video[r][c] == 0) by {
        let p = s.video[r][c];
        assert(p <= 1 ==> ((p ^ 1 == 1) == (p == 0))) by (bit_vector);
    }
}

/// `00E0` leaves every pixel off and marks the frame changed, whatever was
/// on screen.
pub proof fn lemma_cls_blanks(s: Chip8Model, rnd: u8)
    ensures
        execute(s, 0x00E0, rnd).video == blank_frame(),
        forall|r: int, c: int|
            0 <= r < 32 && 0 <= c < 64 ==> #[trigger] execute(s, 0x00E0, rnd).video[r][c] == 0,
        execute(s, 0x00E0, rnd).video_draw,
{
    let op: u16 = 0x00E0;
    lemma_fields_of(op);
    assert((op & 0xF000) >> 12 == 0 && (op & 0x0F00) >> 8 == 0 && (op & 0x00F0) >> 4 == 0xE && op
        & 0x000F == 0) by (bit_vector)
        requires
            op == 0x00E0,
    ;
}

/// `Fx55` followed by `Fx65` with the same `x`, with `I` set back to its
/// value before the store, gives back `V0..=Vx`.
pub proof fn lemma_store_load_round_trip(s: Chip8Model, x: u16, rnd: u8)
    requires
        s.wf(),
        x < 16,
    ensures
        ({
            let s1 = execute(s, 0xF055 | (x << 8), rnd);
            let s2 = Chip8Model { i: s.i, ..s1 };
            let s3 = execute(s2, 0xF065 | (x << 8), rnd);
            forall|k: int| 0 <= k <= x ==> #[trigger] s3.v[k] == s.v[k]
        }),
{
    let store = 0xF055 | (x << 8);
    let load = 0xF065 | (x << 8);
    lemma_fields_of(store);
    lemma_fields_of(load);
    assert(((store & 0x0F00) >> 8) == x && ((store & 0x00F0) >> 4) == 5 && (store & 0x000F) == 5
        && ((load & 0x0F00) >> 8) == x && ((load & 0x00F0) >> 4) == 6 && (load & 0x000F) == 5)
        by (bit_vector)
        requires
            x < 16,
            store == 0xF055 | (x << 8),
            load == 0xF065 | (x << 8),
    ;
    assert((store & 0xF000) >> 12 == 0xF && (load & 0xF000) >> 12 == 0xF) by (bit_vector)
        requires
            x < 16,
            store == 0xF055 | (x << 8),
            load == 0xF065 | (x << 8),
    ;
    let s1 = execute(s, store, rnd);
    let s2 = Chip8Model { i: s.i, ..s1 };
    let s3 = execute(s2, load, rnd);
    assert forall|k: int| 0 <= k <= x implies #[trigger] s3.v[k] == s.v[k] by {
        let a = mem_addr(s.i, k);
        lemma_wrapped_offset(s.i as int, k, a);
        assert(s1.memory[a] == s.v[k]);
    }
}

/// `00EE` with no return address pending changes nothing but `pc`, which
/// moves on to the next instruction.
pub proof fn lemma_return_on_empty_stack(s: Chip8Model, rnd: u8)
    requires
        s.sp == 0,
    ensures
        execute(s, 0x00EE, rnd) == next(s),
{
    let op: u16 = 0x00EE;
    lemma_fields_of(op);
    assert((op & 0xF000) >> 12 == 0 && (op & 0x0F00) >> 8 == 0 && (op & 0x00F0) >> 4 == 0xE && op
        & 0x000F == 0xE) by (bit_vector)
        requires
            op == 0x00EE,
    ;
}

/// A freshly built machine, with or without a program loaded, starts at
/// address 0x200.
pub proof fn lemma_starts_at_program(rom: Seq<u8>)
    ensures
        initial().pc == 0x200,
        with_rom(initial(), rom).pc == 0x200,
{
}

/// The fields of an instruction are its four nibbles, each below 16.
proof fn lemma_fields_of(op: u16)
    ensures
        nibbles(op) == (
            ((op & 0xF000) >> 12) as u8,
            ((op & 0x0F00) >> 8) as u8,
            ((op & 0x00F0) >> 4) as u8,
            (op & 0x000F) as u8,
        ),
        (op & 0xF000) >> 12 < 16,
        (op & 0x0F00) >> 8 < 16,
        (op & 0x00F0) >> 4 < 16,
        op & 0x000F < 16,
{
    assert((op & 0xF000) >> 12 < 16 && (op & 0x0F00) >> 8 < 16 && (op & 0x00F0) >> 4 < 16 && op
        & 0x000F < 16) by (bit_vector);
}

} // verus!
