//! The executable machine.

use vstd::prelude::*;

use crate::constants::{
    CHIP8_MEMORY, CHIP8_VIDEO_HEIGHT, CHIP8_VIDEO_WIDTH, KEYPAD_SIZE, PROGRAM_START, REGISTERS_V,
    STACK_HEIGHT,
};
use crate::machine::{
    add_carry, advance, blank_frame, call, cls, draw, execute, fetch, first_pressed, font,
    initial, key_down, lemma_execute_wf, lemma_wrapped_offset, load_regs, mem_addr, next, op_kk,
    op_n, op_nnn, op_x, op_y, ret, set_vx, set_vx_vf, shift_left, shift_right, skip_if,
    sprite_bit, sprite_covers, step, step_draws, store_bcd, store_regs, sub_borrow, subn_borrow,
    tick, wait_key, with_rom, Chip8Model,
};
use crate::random::random_byte;

verus! {

/// The framebuffer as rows of pixel sequences.
pub open spec fn frame_view(f: [[u8; CHIP8_VIDEO_WIDTH]; CHIP8_VIDEO_HEIGHT]) -> Seq<Seq<u8>> {
    f@.map_values(|row: [u8; CHIP8_VIDEO_WIDTH]| row@)
}

/// What a cycle hands to the host: the framebuffer, and whether it changed
/// since the previous report.
pub struct Chip8State<'a> {
    pub video: &'a [[u8; CHIP8_VIDEO_WIDTH]; CHIP8_VIDEO_HEIGHT],
    pub video_draw: bool,
}

/// A CHIP-8 machine.
pub struct Chip8 {
    video: [[u8; CHIP8_VIDEO_WIDTH]; CHIP8_VIDEO_HEIGHT],
    video_draw: bool,
    memory: [u8; CHIP8_MEMORY],
    stack: [u16; STACK_HEIGHT],
    v: [u8; REGISTERS_V],
    i: u16,
    pc: u16,
    sp: u8,
    dt: u8,
    st: u8,
    keypad: [bool; KEYPAD_SIZE],
}

impl View for Chip8 {
    type V = Chip8Model;

    closed spec fn view(&self) -> Chip8Model {
        Chip8Model {
            video: frame_view(self.video),
            video_draw: self.video_draw,
            memory: self.memory@,
            stack: self.stack@,
            v: self.v@,
            i: self.i,
            pc: self.pc,
            sp: self.sp,
            dt: self.dt,
            st: self.st,
            keypad: self.keypad@,
        }
    }
}

/// Register operand `x` of an instruction.
fn field_x(opcode: u16) -> (r: usize)
    ensures
        r == op_x(opcode),
        r < 16,
{
    assert((opcode & 0x0F00) >> 8 < 16) by (bit_vector);
    ((opcode & 0x0F00) >> 8) as usize
}

/// Register operand `y` of an instruction.
fn field_y(opcode: u16) -> (r: usize)
    ensures
        r == op_y(opcode),
        r < 16,
{
    assert((opcode & 0x00F0) >> 4 < 16) by (bit_vector);
    ((opcode & 0x00F0) >> 4) as usize
}

/// Immediate byte of an instruction.
fn field_kk(opcode: u16) -> (r: u8)
    ensures
        r == op_kk(opcode),
{
    (opcode & 0x00FF) as u8
}

/// Immediate address of an instruction.
fn field_nnn(opcode: u16) -> (r: u16)
    ensures
        r == op_nnn(opcode),
        r <= 0x0FFF,
{
    assert(opcode & 0x0FFF <= 0x0FFF) by (bit_vector);
    opcode & 0x0FFF
}

/// Immediate count of an instruction.
fn field_n(opcode: u16) -> (r: usize)
    ensures
        r == op_n(opcode),
        r < 16,
{
    assert(opcode & 0x000F < 16) by (bit_vector);
    (opcode & 0x000F) as usize
}

impl Chip8 {
    /// A machine with the font in low memory, everything else cleared, and
    /// `pc` at the program start.
    pub fn new() -> (r: Result<Chip8, String>)
        ensures
            r is Ok,
            r->Ok_0@ == initial(),
            r->Ok_0@.wf(),
    {
        let fontset: [u8; 80] = [
            0xF0, 0x90, 0x90, 0x90, 0xF0, 0x20, 0x60, 0x20, 0x20, 0x70, 0xF0, 0x10, 0xF0, 0x80, 0xF0,
            0xF0, 0x10, 0xF0, 0x10, 0xF0, 0x90, 0x90, 0xF0, 0x10, 0x10, 0xF0, 0x80, 0xF0, 0x10, 0xF0,
            0xF0, 0x80, 0xF0, 0x90, 0xF0, 0xF0, 0x10, 0x20, 0x40, 0x40, 0xF0, 0x90, 0xF0, 0x90, 0xF0,
            0xF0, 0x90, 0xF0, 0x10, 0xF0, 0xF0, 0x90, 0xF0, 0x90, 0x90, 0xE0, 0x90, 0xE0, 0x90, 0xE0,
            0xF0, 0x80, 0x80, 0x80, 0xF0, 0xE0, 0x90, 0x90, 0x90, 0xE0, 0xF0, 0x80, 0xF0, 0x80, 0xF0,
            0xF0, 0x80, 0xF0, 0x80, 0x80,
        ];
        assert(fontset@ =~= font());
        let mut chip8 = Chip8 {
            video: [[0u8; CHIP8_VIDEO_WIDTH]; CHIP8_VIDEO_HEIGHT],
            video_draw: false,
            memory: [0u8; CHIP8_MEMORY],
            stack: [0u16; STACK_HEIGHT],
            v: [0u8; REGISTERS_V],
            i: 0,
            pc: PROGRAM_START,
            sp: 0,
            dt: 0,
            st: 0,
            keypad: [false; KEYPAD_SIZE],
        };
        assert forall|r: int| 0 <= r < 32 implies frame_view(chip8.video)[r] =~= blank_frame()[r] by {
            assert(chip8.video@[r]@ =~= seq![0u8; 64]);
        }
        assert(frame_view(chip8.video) =~= blank_frame());
        for k in 0..80
            invariant
                frame_view(chip8.video) == blank_frame(),
                chip8.memory@.len() == 4096,
                fontset@ == font(),
                forall|a: int| 0 <= a < k ==> chip8.memory@[a] == font()[a],
                forall|a: int| k <= a < 4096 ==> chip8.memory@[a] == 0,
                chip8.stack@ == seq![0u16; 16],
                chip8.v@ == seq![0u8; 16],
                chip8.keypad@ == seq![false; 16],
                chip8.video_draw == false,
                chip8.i == 0,
                chip8.pc == 0x200,
                chip8.sp == 0,
                chip8.dt == 0,
                chip8.st == 0,
        {
            chip8.memory[k] = fontset[k];
        }
        assert(chip8@ =~= initial());
        Ok(chip8)
    }

    /// Record key `key` as held down or released.
    pub fn set_key(&mut self, key: u8, pressed: bool)
        requires
            key < 16,
        ensures
            final(self)@ == (Chip8Model {
                keypad: old(self)@.keypad.update(key as int, pressed),
                ..old(self)@
            }),
            old(self)@.wf() ==> final(self)@.wf(),
    {
        self.keypad[key as usize] = pressed;
    }

    /// Copy `rom` into memory from the program start on. A ROM longer than
    /// the space from there to the end of memory is refused and nothing
    /// changes.
    pub fn load_rom(&mut self, rom: &[u8]) -> (r: Result<(), String>)
        ensures
            r is Err <==> rom@.len() > 4096 - 0x200,
            r is Ok ==> final(self)@ == with_rom(old(self)@, rom@),
            r is Err ==> final(self)@ == old(self)@,
            old(self)@.wf() ==> final(self)@.wf(),
    {
        if rom.len() > CHIP8_MEMORY - PROGRAM_START as usize {
            return Err("ROM too large".to_string());
        }
        let ghost s0 = self@;
        for k in 0..rom.len()
            invariant
                rom@.len() <= 4096 - 0x200,
                self@ == (Chip8Model { memory: self@.memory, ..s0 }),
                self@.memory.len() == 4096,
                forall|a: int| 0x200 <= a < 0x200 + k ==> self@.memory[a] == rom@[a - 0x200],
                forall|a: int|
                    0 <= a < 4096 && !(0x200 <= a < 0x200 + k) ==> self@.memory[a] == s0.memory[a],
        {
            self.memory[0x200 + k] = rom[k];
        }
        assert(self@ =~= with_rom(s0, rom@));
        Ok(())
    }

    /// One timer tick: the delay and sound timers each go down by one unless
    /// already zero.
    pub fn update_timers(&mut self)
        ensures
            final(self)@ == tick(old(self)@),
            old(self)@.wf() ==> final(self)@.wf(),
    {
        if self.dt > 0 {
            self.dt -= 1;
        }
        if self.st > 0 {
            self.st -= 1;
        }
    }

    /// Set the pixel in row `row`, column `col`.
    fn set_pixel(&mut self, row: usize, col: usize, value: u8)
        requires
            row < 32,
            col < 64,
        ensures
            final(self)@ == (Chip8Model {
                video: old(self)@.video.update(
                    row as int,
                    old(self)@.video[row as int].update(col as int, value),
                ),
                ..old(self)@
            }),
    {
        self.video[row][col] = value;
        assert(self@.video =~= old(self)@.video.update(
            row as int,
            old(self)@.video[row as int].update(col as int, value),
        ));
    }

    /// One fetch-decode-execute cycle, with `random` as the byte that a
    /// `Cxkk` instruction masks. Returns the framebuffer and whether it
    /// changed since the last cycle that reported a change.
    pub fn cycle_with_random(&mut self, random: u8) -> (r: Chip8State<'_>)
        requires
            old(self)@.wf(),
        ensures
            final(self)@ == step(old(self)@, random),
            r.video_draw == step_draws(old(self)@, random),
            frame_view(*r.video) == final(self)@.video,
            final(self)@.wf(),
    {
        let opcode = self.gen_opcode();
        self.run_opcode(opcode, random);
        proof {
            lemma_execute_wf(old(self)@, opcode, random);
        }
        let should_draw = self.video_draw;
        self.video_draw = false;
        Chip8State { video: &self.video, video_draw: should_draw }
    }

    /// One fetch-decode-execute cycle; a `Cxkk` instruction masks a byte
    /// drawn from the thread's random generator.
    pub fn cycle(&mut self) -> (r: Chip8State<'_>)
        requires
            old(self)@.wf(),
        ensures
            exists|random: u8|
                final(self)@ == step(old(self)@, random) && r.video_draw == step_draws(
                    old(self)@,
                    random,
                ),
            frame_view(*r.video) == final(self)@.video,
            final(self)@.wf(),
    {
        let random = random_byte();
        self.cycle_with_random(random)
    }

    /// The instruction word at `pc`, or 0 where `pc + 1` lies outside memory.
    fn gen_opcode(&self) -> (r: u16)
        requires
            self@.wf(),
        ensures
            r == fetch(self@),
    {
        if self.pc as usize + 1 >= CHIP8_MEMORY {
            return 0;
        }
        let high_byte = self.memory[self.pc as usize];
        let low_byte = self.memory[self.pc as usize + 1];
        assert(((high_byte as u16) << 8) | (low_byte as u16) == high_byte * 256 + low_byte)
            by (bit_vector);
        ((high_byte as u16) << 8) | (low_byte as u16)
    }

    /// Decode `opcode` by its four fields and apply its effect; an
    /// unrecognised pattern only advances `pc`.
    fn run_opcode(&mut self, opcode: u16, random: u8)
        requires
            old(self)@.wf(),
        ensures
            final(self)@ == execute(old(self)@, opcode, random),
    {
        let bytes = (
            ((opcode & 0xF000) >> 12) as u8,
            ((opcode & 0x0F00) >> 8) as u8,
            ((opcode & 0x00F0) >> 4) as u8,
            (opcode & 0x000F) as u8,
        );

        match bytes {
            (0x00, 0x00, 0x00, 0x00) => self.op_0nnn(),
            (0x00, 0x00, 0x0e, 0x00) => self.op_00e0(),
            (0x00, 0x00, 0x0e, 0x0e) => self.op_00ee(),
            (0x01, _, _, _) => self.op_1nnn(opcode),
            (0x02, _, _, _) => self.op_2nnn(opcode),
            (0x03, _, _, _) => self.op_3xkk(opcode),
            (0x04, _, _, _) => self.op_4xkk(opcode),
            (0x05, _, _, 0x00) => self.op_5xy0(opcode),
            (0x06, _, _, _) => self.op_6xkk(opcode),
            (0x07, _, _, _) => self.op_7xkk(opcode),
            (0x08, _, _, 0x00) => self.op_8xy0(opcode),
            (0x08, _, _, 0x01) => self.op_8xy1(opcode),
            (0x08, _, _, 0x02) => self.op_8xy2(opcode),
            (0x08, _, _, 0x03) => self.op_8xy3(opcode),
            (0x08, _, _, 0x04) => self.op_8xy4(opcode),
            (0x08, _, _, 0x05) => self.op_8xy5(opcode),
            (0x08, _, _, 0x06) => self.op_8xy6(opcode),
            (0x08, _, _, 0x07) => self.op_8xy7(opcode),
            (0x08, _, _, 0x0e) => self.op_8xye(opcode),
            (0x09, _, _, 0x00) => self.op_9xy0(opcode),
            (0x0a, _, _, _) => self.op_annn(opcode),
            (0x0b, _, _, _) => self.op_bnnn(opcode),
            (0x0c, _, _, _) => self.op_cxkk(opcode, random),
            (0x0d, _, _, _) => self.op_dxyn(opcode),
            (0x0e, _, 0x09, 0x0e) => self.op_ex9e(opcode),
            (0x0e, _, 0x0a, 0x01) => self.op_exa1(opcode),
            (0x0f, _, 0x00, 0x07) => self.op_fx07(opcode),
            (0x0f, _, 0x00, 0x0a) => self.op_fx0a(opcode),
            (0x0f, _, 0x01, 0x05) => self.op_fx15(opcode),
            (0x0f, _, 0x01, 0x08) => self.op_fx18(opcode),
            (0x0f, _, 0x01, 0x0e) => self.op_fx1e(opcode),
            (0x0f, _, 0x02, 0x09) => self.op_fx29(opcode),
            (0x0f, _, 0x03, 0x03) => self.op_fx33(opcode),
            (0x0f, _, 0x05, 0x05) => self.op_fx55(opcode),
            (0x0f, _, 0x06, 0x05) => self.op_fx65(opcode),
            _ => self.pc = self.pc.wrapping_add(2),
        };
    }

    /// `0nnn` SYS: ignored.
    fn op_0nnn(&mut self)
        ensures
            final(self)@ == next(old(self)@),
    {
        self.pc = self.pc.wrapping_add(2);
    }

    /// `00E0` CLS: clear the display.
    fn op_00e0(&mut self)
        requires
            old(self)@.wf(),
        ensures
            final(self)@ == cls(old(self)@),
    {
        let ghost s0 = self@;
        for x in 0..CHIP8_VIDEO_WIDTH
            invariant
                self@ == (Chip8Model { video: self@.video, ..s0 }),
                s0.wf(),
                self@.video.len() == 32,
                forall|r: int| 0 <= r < 32 ==> (#[trigger] self@.video[r]).len() == 64,
                forall|r: int, c: int|
                    0 <= r < 32 && 0 <= c < 64 ==> #[trigger] self@.video[r][c] == if c < x {
                        0
                    } else {
                        s0.video[r][c]
                    },
        {
            for y in 0..CHIP8_VIDEO_HEIGHT
                invariant
                    0 <= x < 64,
                    self@ == (Chip8Model { video: self@.video, ..s0 }),
                    s0.wf(),
                    self@.video.len() == 32,
                    forall|r: int| 0 <= r < 32 ==> (#[trigger] self@.video[r]).len() == 64,
                    forall|r: int, c: int|
                        0 <= r < 32 && 0 <= c < 64 ==> #[trigger] self@.video[r][c] == if c < x
                            || (c == x && r < y) {
                            0
                        } else {
                            s0.video[r][c]
                        },
            {
                self.set_pixel(y, x, 0);
            }
        }
        self.video_draw = true;
        self.pc = self.pc.wrapping_add(2);
        assert(self@.video =~= blank_frame()) by {
            assert forall|r: int| 0 <= r < 32 implies self@.video[r] =~= blank_frame()[r] by {}
        }
        assert(self@ =~= cls(s0));
    }

    /// `00EE` RET: return from a subroutine; ignored when no call is pending.
    fn op_00ee(&mut self)
        requires
            old(self)@.wf(),
        ensures
            final(self)@ == ret(old(self)@),
    {
        if self.sp == 0 {
            self.pc = self.pc.wrapping_add(2);
        } else {
            self.pc = self.stack[self.sp as usize];
            self.sp -= 1;
        }
    }

    /// `1nnn` JP: jump to `nnn`.
    fn op_1nnn(&mut self, opcode: u16)
        ensures
            final(self)@ == (Chip8Model { pc: op_nnn(opcode), ..old(self)@ }),
    {
        self.pc = field_nnn(opcode);
    }

    /// `2nnn` CALL: call the subroutine at `nnn`; ignored when the stack is
    /// full.
    fn op_2nnn(&mut self, opcode: u16)
        requires
            old(self)@.wf(),
        ensures
            final(self)@ == call(old(self)@, opcode),
    {
        if self.sp as usize >= STACK_HEIGHT - 1 {
            self.pc = self.pc.wrapping_add(2);
        } else {
            self.sp += 1;
            self.stack[self.sp as usize] = self.pc.wrapping_add(2);
            self.pc = field_nnn(opcode);
        }
    }

    /// `3xkk` SE: skip the next instruction if `Vx == kk`.
    fn op_3xkk(&mut self, opcode: u16)
        requires
            old(self)@.wf(),
        ensures
            final(self)@ == skip_if(old(self)@, old(self)@.v[op_x(opcode)] == op_kk(opcode)),
    {
        let x = field_x(opcode);
        let kk = field_kk(opcode);
        if self.v[x] == kk {
            self.pc = self.pc.wrapping_add(4);
        } else {
            self.pc = self.pc.wrapping_add(2);
        }
    }

    /// `4xkk` SNE: skip the next instruction if `Vx != kk`.
    fn op_4xkk(&mut self, opcode: u16)
        requires
            old(self)@.wf(),
        ensures
            final(self)@ == skip_if(old(self)@, old(self)@.v[op_x(opcode)] != op_kk(opcode)),
    {
        let x = field_x(opcode);
        let kk = field_kk(opcode);
        if self.v[x] != kk {
            self.pc = self.pc.wrapping_add(4);
        } else {
            self.pc = self.pc.wrapping_add(2);
        }
    }

    /// `5xy0` SE: skip the next instruction if `Vx == Vy`.
    fn op_5xy0(&mut self, opcode: u16)
        requires
            old(self)@.wf(),
        ensures
            final(self)@ == skip_if(
                old(self)@,
                old(self)@.v[op_x(opcode)] == old(self)@.v[op_y(opcode)],
            ),
    {
        let x = field_x(opcode);
        let y = field_y(opcode);
        if self.v[x] == self.v[y] {
            self.pc = self.pc.wrapping_add(4);
        } else {
            self.pc = self.pc.wrapping_add(2);
        }
    }

    /// `6xkk` LD: `Vx = kk`.
    fn op_6xkk(&mut self, opcode: u16)
        requires
            old(self)@.wf(),
        ensures
            final(self)@ == set_vx(old(self)@, op_x(opcode), op_kk(opcode)),
    {
        self.v[field_x(opcode)] = field_kk(opcode);
        self.pc = self.pc.wrapping_add(2);
    }

    /// `7xkk` ADD: `Vx = Vx + kk`, wrapping, flags untouched.
    fn op_7xkk(&mut self, opcode: u16)
        requires
            old(self)@.wf(),
        ensures
            final(self)@ == set_vx(
                old(self)@,
                op_x(opcode),
                ((old(self)@.v[op_x(opcode)] + op_kk(opcode)) % 256) as u8,
            ),
    {
        let x = field_x(opcode);
        let kk = field_kk(opcode);
        self.v[x] = self.v[x].wrapping_add(kk);
        self.pc = self.pc.wrapping_add(2);
    }

    /// `8xy0` LD: `Vx = Vy`.
    fn op_8xy0(&mut self, opcode: u16)
        requires
            old(self)@.wf(),
        ensures
            final(self)@ == set_vx(old(self)@, op_x(opcode), old(self)@.v[op_y(opcode)]),
    {
        let x = field_x(opcode);
        let y = field_y(opcode);
        self.v[x] = self.v[y];
        self.pc = self.pc.wrapping_add(2);
    }

    /// `8xy1` OR: `Vx = Vx | Vy`, `VF = 0`.
    fn op_8xy1(&mut self, opcode: u16)
        requires
            old(self)@.wf(),
        ensures
            final(self)@ == set_vx_vf(
                old(self)@,
                op_x(opcode),
                old(self)@.v[op_x(opcode)] | old(self)@.v[op_y(opcode)],
                0,
            ),
    {
        let x = field_x(opcode);
        let y = field_y(opcode);
        let vx = self.v[x];
        let vy = self.v[y];
        self.v[x] = vx | vy;
        self.v[0xF] = 0;
        self.pc = self.pc.wrapping_add(2);
    }

    /// `8xy2` AND: `Vx = Vx & Vy`, `VF = 0`.
    fn op_8xy2(&mut self, opcode: u16)
        requires
            old(self)@.wf(),
        ensures
            final(self)@ == set_vx_vf(
                old(self)@,
                op_x(opcode),
                old(self)@.v[op_x(opcode)] & old(self)@.v[op_y(opcode)],
                0,
            ),
    {
        let x = field_x(opcode);
        let y = field_y(opcode);
        let vx = self.v[x];
        let vy = self.v[y];
        self.v[x] = vx & vy;
        self.v[0xF] = 0;
        self.pc = self.pc.wrapping_add(2);
    }

    /// `8xy3` XOR: `Vx = Vx ^ Vy`, `VF = 0`.
    fn op_8xy3(&mut self, opcode: u16)
        requires
            old(self)@.wf(),
        ensures
            final(self)@ == set_vx_vf(
                old(self)@,
                op_x(opcode),
                old(self)@.v[op_x(opcode)] ^ old(self)@.v[op_y(opcode)],
                0,
            ),
    {
        let x = field_x(opcode);
        let y = field_y(opcode);
        let vx = self.v[x];
        let vy = self.v[y];
        self.v[x] = vx ^ vy;
        self.v[0xF] = 0;
        self.pc = self.pc.wrapping_add(2);
    }

    /// `8xy4` ADD: `Vx = Vx + Vy` modulo 256, `VF` = carry.
    fn op_8xy4(&mut self, opcode: u16)
        requires
            old(self)@.wf(),
        ensures
            final(self)@ == add_carry(old(self)@, opcode),
    {
        let x = field_x(opcode);
        let y = field_y(opcode);
        let vx = self.v[x];
        let vy = self.v[y];
        let sum = vx as u16 + vy as u16;
        self.v[x] = vx.wrapping_add(vy);
        self.v[0xF] = if sum > 255 { 1 } else { 0 };
        self.pc = self.pc.wrapping_add(2);
    }

    /// `8xy5` SUB: `Vx = Vx - Vy` modulo 256, `VF` = no borrow.
    fn op_8xy5(&mut self, opcode: u16)
        requires
            old(self)@.wf(),
        ensures
            final(self)@ == sub_borrow(old(self)@, opcode),
    {
        let x = field_x(opcode);
        let y = field_y(opcode);
        let vx = self.v[x];
        let vy = self.v[y];
        self.v[x] = vx.wrapping_sub(vy);
        self.v[0xF] = if vx >= vy { 1 } else { 0 };
        self.pc = self.pc.wrapping_add(2);
    }

    /// `8xy6` SHR: `Vx = Vx >> 1`, `VF` = the bit shifted out. `Vy` plays
    /// no part.
    fn op_8xy6(&mut self, opcode: u16)
        requires
            old(self)@.wf(),
        ensures
            final(self)@ == shift_right(old(self)@, opcode),
    {
        let x = field_x(opcode);
        let vx = self.v[x];
        assert(vx >> 1 == vx / 2 && vx & 1 == vx % 2) by (bit_vector);
        self.v[x] = vx >> 1;
        self.v[0xF] = vx & 0x1;
        self.pc = self.pc.wrapping_add(2);
    }

    /// `8xy7` SUBN: `Vx = Vy - Vx` modulo 256, `VF` = no borrow.
    fn op_8xy7(&mut self, opcode: u16)
        requires
            old(self)@.wf(),
        ensures
            final(self)@ == subn_borrow(old(self)@, opcode),
    {
        let x = field_x(opcode);
        let y = field_y(opcode);
        let vx = self.v[x];
        let vy = self.v[y];
        self.v[x] = vy.wrapping_sub(vx);
        self.v[0xF] = if vy >= vx { 1 } else { 0 };
        self.pc = self.pc.wrapping_add(2);
    }

    /// `8xyE` SHL: `Vx = Vx << 1`, `VF` = the bit shifted out. `Vy` plays
    /// no part.
    fn op_8xye(&mut self, opcode: u16)
        requires
            old(self)@.wf(),
        ensures
            final(self)@ == shift_left(old(self)@, opcode),
    {
        let x = field_x(opcode);
        let vx = self.v[x];
        assert(vx << 1 == ((vx * 2) % 256) as u8 && (vx & 0x80) >> 7 == vx / 128) by (bit_vector);
        self.v[x] = vx << 1;
        self.v[0xF] = (vx & 0x80) >> 7;
        self.pc = self.pc.wrapping_add(2);
    }

    /// `9xy0` SNE: skip the next instruction if `Vx != Vy`.
    fn op_9xy0(&mut self, opcode: u16)
        requires
            old(self)@.wf(),
        ensures
            final(self)@ == skip_if(
                old(self)@,
                old(self)@.v[op_x(opcode)] != old(self)@.v[op_y(opcode)],
            ),
    {
        let x = field_x(opcode);
        let y = field_y(opcode);
        if self.v[x] != self.v[y] {
            self.pc = self.pc.wrapping_add(4);
        } else {
            self.pc = self.pc.wrapping_add(2);
        }
    }
    /// `Annn` LD I: `I = nnn`.
    fn op_annn(&mut self, opcode: u16)
        ensures
            final(self)@ == next(Chip8Model { i: op_nnn(opcode), ..old(self)@ }),
    {
        self.i = field_nnn(opcode);
        self.pc = self.pc.wrapping_add(2);
    }

    /// `Bnnn` JP V0: jump to `nnn + V0`.
    fn op_bnnn(&mut self, opcode: u16)
        requires
            old(self)@.wf(),
        ensures
            final(self)@ == (Chip8Model {
                pc: (op_nnn(opcode) + old(self)@.v[0]) as u16,
                ..old(self)@
            }),
    {
        self.pc = field_nnn(opcode) + self.v[0] as u16;
    }

    /// `Cxkk` RND: `Vx = random & kk`, for the random byte `random`.
    fn op_cxkk(&mut self, opcode: u16, random: u8)
        requires
            old(self)@.wf(),
        ensures
            final(self)@ == set_vx(old(self)@, op_x(opcode), random & op_kk(opcode)),
    {
        let x = field_x(opcode);
        let kk = field_kk(opcode);
        self.v[x] = random & kk;
        self.pc = self.pc.wrapping_add(2);
    }

    /// `Ex9E` SKP: skip the next instruction if the key named by `Vx` is held.
    fn op_ex9e(&mut self, opcode: u16)
        requires
            old(self)@.wf(),
        ensures
            final(self)@ == skip_if(old(self)@, key_down(old(self)@, old(self)@.v[op_x(opcode)])),
    {
        let x = field_x(opcode);
        let key = self.v[x] as usize;
        if key < KEYPAD_SIZE && self.keypad[key] {
            self.pc = self.pc.wrapping_add(4);
        } else {
            self.pc = self.pc.wrapping_add(2);
        }
    }

    /// `ExA1` SKNP: skip the next instruction unless the key named by `Vx` is
    /// held.
    fn op_exa1(&mut self, opcode: u16)
        requires
            old(self)@.wf(),
        ensures
            final(self)@ == skip_if(old(self)@, !key_down(old(self)@, old(self)@.v[op_x(opcode)])),
    {
        let x = field_x(opcode);
        let key = self.v[x] as usize;
        if !(key < KEYPAD_SIZE && self.keypad[key]) {
            self.pc = self.pc.wrapping_add(4);
        } else {
            self.pc = self.pc.wrapping_add(2);
        }
    }

    /// `Fx07` LD Vx, DT: `Vx` = delay timer.
    fn op_fx07(&mut self, opcode: u16)
        requires
            old(self)@.wf(),
        ensures
            final(self)@ == set_vx(old(self)@, op_x(opcode), old(self)@.dt),
    {
        let x = field_x(opcode);
        self.v[x] = self.dt;
        self.pc = self.pc.wrapping_add(2);
    }

    /// `Fx0A` LD Vx, K: store the lowest held key in `Vx`; with no key held,
    /// stay on this instruction.
    fn op_fx0a(&mut self, opcode: u16)
        requires
            old(self)@.wf(),
        ensures
            final(self)@ == wait_key(old(self)@, opcode),
    {
        let x = field_x(opcode);
        let mut key: usize = 0;
        while key < KEYPAD_SIZE
            invariant
                self@ == old(self)@,
                old(self)@.wf(),
                x == op_x(opcode),
                x < 16,
                key <= 16,
                first_pressed(self@.keypad, 0) == first_pressed(self@.keypad, key as int),
            decreases 16 - key,
        {
            if self.keypad[key] {
                self.v[x] = key as u8;
                self.pc = self.pc.wrapping_add(2);
                return;
            }
            key += 1;
        }
    }

    /// `Fx15` LD DT, Vx: delay timer = `Vx`.
    fn op_fx15(&mut self, opcode: u16)
        requires
            old(self)@.wf(),
        ensures
            final(self)@ == next(Chip8Model { dt: old(self)@.v[op_x(opcode)], ..old(self)@ }),
    {
        let x = field_x(opcode);
        self.dt = self.v[x];
        self.pc = self.pc.wrapping_add(2);
    }

    /// `Fx18` LD ST, Vx: sound timer = `Vx`.
    fn op_fx18(&mut self, opcode: u16)
        requires
            old(self)@.wf(),
        ensures
            final(self)@ == next(Chip8Model { st: old(self)@.v[op_x(opcode)], ..old(self)@ }),
    {
        let x = field_x(opcode);
        self.st = self.v[x];
        self.pc = self.pc.wrapping_add(2);
    }

    /// `Fx1E` ADD I, Vx: `I = I + Vx`, wrapping at 16 bits, flags untouched.
    fn op_fx1e(&mut self, opcode: u16)
        requires
            old(self)@.wf(),
        ensures
            final(self)@ == next(Chip8Model {
                i: advance(old(self)@.i, old(self)@.v[op_x(opcode)] as int),
                ..old(self)@
            }),
    {
        let x = field_x(opcode);
        self.i = self.i.wrapping_add(self.v[x] as u16);
        self.pc = self.pc.wrapping_add(2);
    }

    /// `Fx29` LD F, Vx: `I` = address of the glyph of digit `Vx`.
    fn op_fx29(&mut self, opcode: u16)
        requires
            old(self)@.wf(),
        ensures
            final(self)@ == next(Chip8Model {
                i: (old(self)@.v[op_x(opcode)] * 5) as u16,
                ..old(self)@
            }),
    {
        let x = field_x(opcode);
        let digit = self.v[x] as u16;
        self.i = digit * 5;
        self.pc = self.pc.wrapping_add(2);
    }

    /// `Fx33` LD B, Vx: decimal digits of `Vx` at `I`, `I+1`, `I+2`.
    fn op_fx33(&mut self, opcode: u16)
        requires
            old(self)@.wf(),
        ensures
            final(self)@ == store_bcd(old(self)@, opcode),
    {
        let x = field_x(opcode);
        let value = self.v[x];
        let base = self.i as usize;
        self.memory[base % CHIP8_MEMORY] = value / 100;
        self.memory[(base + 1) % CHIP8_MEMORY] = (value % 100) / 10;
        self.memory[(base + 2) % CHIP8_MEMORY] = value % 10;
        self.pc = self.pc.wrapping_add(2);
    }

    /// `Fx55` LD [I], Vx: store `V0..=Vx` in memory from `I` on, then
    /// `I = I + x + 1`.
    fn op_fx55(&mut self, opcode: u16)
        requires
            old(self)@.wf(),
        ensures
            final(self)@ == store_regs(old(self)@, opcode),
    {
        let x = field_x(opcode);
        let ghost s0 = self@;
        for register_index in 0..x + 1
            invariant
                x < 16,
                s0.wf(),
                self@ == (Chip8Model { memory: self@.memory, ..s0 }),
                self@.memory.len() == 4096,
                forall|a: int|
                    0 <= a < 4096 ==> #[trigger] self@.memory[a] == if (a - s0.i) % 4096
                        < register_index {
                        s0.v[(a - s0.i) % 4096]
                    } else {
                        s0.memory[a]
                    },
        {
            let addr = (self.i as usize + register_index) % CHIP8_MEMORY;
            self.memory[addr] = self.v[register_index];
            assert forall|a: int| 0 <= a < 4096 implies #[trigger] self@.memory[a] == if (a - s0.i)
                % 4096 < register_index + 1 {
                s0.v[(a - s0.i) % 4096]
            } else {
                s0.memory[a]
            } by {
                lemma_wrapped_offset(s0.i as int, register_index as int, a);
            }
        }
        self.i = self.i.wrapping_add(x as u16 + 1);
        self.pc = self.pc.wrapping_add(2);
        assert(self@.memory =~= store_regs(s0, opcode).memory);
        assert(self@ =~= store_regs(s0, opcode));
    }

    /// `Fx65` LD Vx, [I]: load `V0..=Vx` from memory from `I` on, then
    /// `I = I + x + 1`.
    fn op_fx65(&mut self, opcode: u16)
        requires
            old(self)@.wf(),
        ensures
            final(self)@ == load_regs(old(self)@, opcode),
    {
        let x = field_x(opcode);
        let ghost s0 = self@;
        for register_index in 0..x + 1
            invariant
                x < 16,
                s0.wf(),
                self@ == (Chip8Model { v: self@.v, ..s0 }),
                self@.v.len() == 16,
                forall|k: int|
                    0 <= k < 16 ==> #[trigger] self@.v[k] == if k < register_index {
                        s0.memory[mem_addr(s0.i, k)]
                    } else {
                        s0.v[k]
                    },
        {
            self.v[register_index] = self.memory[(self.i as usize + register_index) % CHIP8_MEMORY];
        }
        self.i = self.i.wrapping_add(x as u16 + 1);
        self.pc = self.pc.wrapping_add(2);
        assert(self@.v =~= load_regs(s0, opcode).v);
        assert(self@ =~= load_regs(s0, opcode));
    }
    /// `Dxyn` DRW: draw the `n`-row sprite at `memory[I..]` with its top left
    /// corner at `(Vx, Vy)`, wrapping around the edges, by toggling pixels.
    /// `VF` records whether a pixel that was on got toggled.
    fn op_dxyn(&mut self, opcode: u16)
        requires
            old(self)@.wf(),
        ensures
            final(self)@ == draw(old(self)@, opcode),
    {
        let n = field_n(opcode);
        let x = field_x(opcode);
        let y = field_y(opcode);
        let start_x = self.v[x] as usize;
        let start_y = self.v[y] as usize;
        let ghost s0 = self@;
        let ghost sx = start_x as int;
        let ghost sy = start_y as int;

        self.v[0xF] = 0;

        for y_offset in 0..n
            invariant
                s0.wf(),
                n == op_n(opcode),
                n < 16,
                sx == start_x,
                sy == start_y,
                start_x < 256,
                start_y < 256,
                self@ == (Chip8Model { video: self@.video, v: self@.v, ..s0 }),
                self@.v == s0.v.update(15, self@.v[15]),
                self@.video.len() == 32,
                forall|r: int| 0 <= r < 32 ==> (#[trigger] self@.video[r]).len() == 64,
                forall|r: int, c: int|
                    0 <= r < 32 && 0 <= c < 64 ==> #[trigger] self@.video[r][c] == if drawn_before(
                        s0,
                        sx,
                        sy,
                        n as int,
                        y_offset as int,
                        0,
                        r,
                        c,
                    ) {
                        s0.video[r][c] ^ 1
                    } else {
                        s0.video[r][c]
                    },
                self@.v[15] == if collided_before(s0, sx, sy, n as int, y_offset as int, 0) {
                    1u8
                } else {
                    0u8
                },
        {
            let sprite_byte = self.memory[(self.i as usize + y_offset) % CHIP8_MEMORY];
            let current_y = (start_y + y_offset) % CHIP8_VIDEO_HEIGHT;
            proof {
                lemma_row_step(s0, sx, sy, n as int, y_offset as int);
            }
            for x_offset in 0..8usize
                invariant
                    s0.wf(),
                    n == op_n(opcode),
                    n < 16,
                    y_offset < n,
                    sx == start_x,
                    sy == start_y,
                    start_x < 256,
                    start_y < 256,
                    current_y == (sy + y_offset) % 32,
                    sprite_byte == s0.memory[mem_addr(s0.i, y_offset as int)],
                    self@ == (Chip8Model { video: self@.video, v: self@.v, ..s0 }),
                    self@.v == s0.v.update(15, self@.v[15]),
                    self@.video.len() == 32,
                    forall|r: int| 0 <= r < 32 ==> (#[trigger] self@.video[r]).len() == 64,
                    forall|r: int, c: int|
                        0 <= r < 32 && 0 <= c < 64 ==> #[trigger] self@.video[r][c]
                            == if drawn_before(
                            s0,
                            sx,
                            sy,
                            n as int,
                            y_offset as int,
                            x_offset as int,
                            r,
                            c,
                        ) {
                            s0.video[r][c] ^ 1
                        } else {
                            s0.video[r][c]
                        },
                    self@.v[15] == if collided_before(
                        s0,
                        sx,
                        sy,
                        n as int,
                        y_offset as int,
                        x_offset as int,
                    ) {
                        1u8
                    } else {
                        0u8
                    },
            {
                let current_x = (start_x + x_offset) % CHIP8_VIDEO_WIDTH;
                proof {
                    lemma_cell_step(s0, sx, sy, n as int, y_offset as int, x_offset as int);
                }
                if (sprite_byte & (0x80u8 >> (x_offset as u8))) != 0 {
                    let pixel = self.video[current_y][current_x];
                    if pixel == 1 {
                        self.v[0xF] = 1;
                    }
                    self.set_pixel(current_y, current_x, pixel ^ 1);
                }
                assert(self@.v =~= s0.v.update(15, self@.v[15]));
            }
        }
        self.video_draw = true;
        self.pc = self.pc.wrapping_add(2);
        proof {
            let d = draw(s0, opcode);
            assert forall|r: int| 0 <= r < 32 implies #[trigger] self@.video[r] =~= d.video[r] by {
                assert forall|c: int| 0 <= c < 64 implies self@.video[r][c] == d.video[r][c] by {
                    assert(drawn_before(s0, sx, sy, n as int, n as int, 0, r, c) == sprite_covers(
                        s0,
                        sx,
                        sy,
                        n as int,
                        r,
                        c,
                    ));
                }
            }
            assert(self@.video =~= d.video);
            assert(collided_before(s0, sx, sy, n as int, n as int, 0) <==> exists|r: int, c: int|
                0 <= r < 32 && 0 <= c < 64 && #[trigger] sprite_covers(s0, sx, sy, n as int, r, c)
                    && s0.video[r][c] == 1) by {
                if collided_before(s0, sx, sy, n as int, n as int, 0) {
                    let (r, c) = choose|r: int, c: int|
                        0 <= r < 32 && 0 <= c < 64 && #[trigger] drawn_before(
                            s0,
                            sx,
                            sy,
                            n as int,
                            n as int,
                            0,
                            r,
                            c,
                        ) && s0.video[r][c] == 1;
                    assert(sprite_covers(s0, sx, sy, n as int, r, c));
                }
                if exists|r: int, c: int|
                    0 <= r < 32 && 0 <= c < 64 && #[trigger] sprite_covers(
                        s0,
                        sx,
                        sy,
                        n as int,
                        r,
                        c,
                    ) && s0.video[r][c] == 1 {
                    let (r, c) = choose|r: int, c: int|
                        0 <= r < 32 && 0 <= c < 64 && #[trigger] sprite_covers(
                            s0,
                            sx,
                            sy,
                            n as int,
                            r,
                            c,
                        ) && s0.video[r][c] == 1;
                    assert(drawn_before(s0, sx, sy, n as int, n as int, 0, r, c));
                }
            }
            assert(self@.v =~= d.v);
            assert(self@ =~= d);
        }
    }
    /// Register `Vidx`.
    pub fn register(&self, idx: usize) -> (r: u8)
        requires
            idx < 16,
        ensures
            r == self@.v[idx as int],
    {
        self.v[idx]
    }

    /// The address register `I`.
    pub fn index_register(&self) -> (r: u16)
        ensures
            r == self@.i,
    {
        self.i
    }

    /// The program counter.
    pub fn program_counter(&self) -> (r: u16)
        ensures
            r == self@.pc,
    {
        self.pc
    }

    /// The stack pointer: how many return addresses are pending.
    pub fn stack_pointer(&self) -> (r: u8)
        ensures
            r == self@.sp,
    {
        self.sp
    }

    /// The byte at memory address `addr`.
    pub fn memory_at(&self, addr: usize) -> (r: u8)
        requires
            addr < 4096,
        ensures
            r == self@.memory[addr as int],
    {
        self.memory[addr]
    }

    /// The pixel in row `row`, column `col`.
    pub fn pixel(&self, row: usize, col: usize) -> (r: u8)
        requires
            row < 32,
            col < 64,
        ensures
            r == self@.video[row as int][col as int],
    {
        self.video[row][col]
    }

    /// The delay timer.
    pub fn delay_timer(&self) -> (r: u8)
        ensures
            r == self@.dt,
    {
        self.dt
    }

    /// The sound timer.
    pub fn sound_timer(&self) -> (r: u8)
        ensures
            r == self@.st,
    {
        self.st
    }
}

/// Of the sprite's pixels, those in its rows before `rows`, and in row `rows`
/// those in columns before `cols`, cover pixel `(r, c)`.
spec fn drawn_before(
    s: Chip8Model,
    sx: int,
    sy: int,
    n: int,
    rows: int,
    cols: int,
    r: int,
    c: int,
) -> bool {
    let dy = (r - sy) % 32;
    let dx = (c - sx) % 64;
    sprite_covers(s, sx, sy, n, r, c) && (dy < rows || (dy == rows && dx < cols))
}

/// One of the pixels that `drawn_before` names was on.
spec fn collided_before(s: Chip8Model, sx: int, sy: int, n: int, rows: int, cols: int) -> bool {
    exists|r: int, c: int|
        0 <= r < 32 && 0 <= c < 64 && #[trigger] drawn_before(s, sx, sy, n, rows, cols, r, c)
            && s.video[r][c] == 1
}

/// Finishing a row is starting the next one.
proof fn lemma_row_step(s: Chip8Model, sx: int, sy: int, n: int, rows: int)
    requires
        0 <= rows < n,
    ensures
        forall|r: int, c: int|
            #![trigger drawn_before(s, sx, sy, n, rows, 8, r, c)]
            #![trigger drawn_before(s, sx, sy, n, rows + 1, 0, r, c)]
            drawn_before(s, sx, sy, n, rows, 8, r, c) == drawn_before(s, sx, sy, n, rows + 1, 0, r, c),
        collided_before(s, sx, sy, n, rows, 8) == collided_before(s, sx, sy, n, rows + 1, 0),
{
    assert forall|r: int, c: int|
        drawn_before(s, sx, sy, n, rows, 8, r, c) == drawn_before(s, sx, sy, n, rows + 1, 0, r, c) by {}
    if collided_before(s, sx, sy, n, rows, 8) {
        let (r, c) = choose|r: int, c: int|
            0 <= r < 32 && 0 <= c < 64 && #[trigger] drawn_before(s, sx, sy, n, rows, 8, r, c)
                && s.video[r][c] == 1;
        assert(drawn_before(s, sx, sy, n, rows + 1, 0, r, c));
    }
    if collided_before(s, sx, sy, n, rows + 1, 0) {
        let (r, c) = choose|r: int, c: int|
            0 <= r < 32 && 0 <= c < 64 && #[trigger] drawn_before(s, sx, sy, n, rows + 1, 0, r, c)
                && s.video[r][c] == 1;
        assert(drawn_before(s, sx, sy, n, rows, 8, r, c));
    }
}

/// Drawing one more pixel of row `rows` adds exactly the cell at column
/// offset `cols` of that row, if the sprite sets it.
proof fn lemma_cell_step(s: Chip8Model, sx: int, sy: int, n: int, rows: int, cols: int)
    requires
        0 <= rows < n,
        n < 16,
        0 <= cols < 8,
        0 <= sx < 256,
        0 <= sy < 256,
    ensures
        forall|r: int, c: int|
            0 <= r < 32 && 0 <= c < 64 ==> (#[trigger] drawn_before(s, sx, sy, n, rows, cols + 1, r, c)
                == (drawn_before(s, sx, sy, n, rows, cols, r, c) || (r == (sy + rows) % 32 && c == (sx
                + cols) % 64 && sprite_bit(s.memory[mem_addr(s.i, rows)], cols)))),
        !drawn_before(s, sx, sy, n, rows, cols, (sy + rows) % 32, (sx + cols) % 64),
        collided_before(s, sx, sy, n, rows, cols + 1) == (collided_before(s, sx, sy, n, rows, cols) || (
        sprite_bit(s.memory[mem_addr(s.i, rows)], cols) && s.video[(sy + rows) % 32][(sx + cols)
            % 64] == 1)),
{
    let cy = (sy + rows) % 32;
    let cx = (sx + cols) % 64;
    assert((cy - sy) % 32 == rows);
    assert((cx - sx) % 64 == cols);
    assert forall|r: int, c: int|
        0 <= r < 32 && 0 <= c < 64 implies (#[trigger] drawn_before(s, sx, sy, n, rows, cols + 1, r, c)
        == (drawn_before(s, sx, sy, n, rows, cols, r, c) || (r == cy && c == cx && sprite_bit(
        s.memory[mem_addr(s.i, rows)],
        cols,
    )))) by {
        if (r - sy) % 32 == rows {
            assert(r == cy);
        }
        if (c - sx) % 64 == cols {
            assert(c == cx);
        }
    }
    if collided_before(s, sx, sy, n, rows, cols + 1) {
        let (r, c) = choose|r: int, c: int|
            0 <= r < 32 && 0 <= c < 64 && #[trigger] drawn_before(s, sx, sy, n, rows, cols + 1, r, c)
                && s.video[r][c] == 1;
        if !(r == cy && c == cx) {
            assert(drawn_before(s, sx, sy, n, rows, cols, r, c));
        }
    }
    if collided_before(s, sx, sy, n, rows, cols) {
        let (r, c) = choose|r: int, c: int|
            0 <= r < 32 && 0 <= c < 64 && #[trigger] drawn_before(s, sx, sy, n, rows, cols, r, c)
                && s.video[r][c] == 1;
        assert(drawn_before(s, sx, sy, n, rows, cols + 1, r, c));
    }
    if sprite_bit(s.memory[mem_addr(s.i, rows)], cols) && s.video[cy][cx] == 1 {
        assert(drawn_before(s, sx, sy, n, rows, cols + 1, cy, cx));
    }
}

} // verus!
