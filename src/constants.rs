use vstd::prelude::*;

verus! {

/// Bytes of addressable memory.
pub const CHIP8_MEMORY: usize = 4096;

/// Framebuffer width in pixels.
pub const CHIP8_VIDEO_WIDTH: usize = 64;

/// Framebuffer height in pixels.
pub const CHIP8_VIDEO_HEIGHT: usize = 32;

/// Slots of the return-address stack.
pub const STACK_HEIGHT: usize = 16;

/// General-purpose registers V0..VF.
pub const REGISTERS_V: usize = 16;

/// Keys of the hexadecimal keypad.
pub const KEYPAD_SIZE: usize = 16;

/// Address at which programs are loaded and execution starts.
pub const PROGRAM_START: u16 = 0x200;

} // verus!
