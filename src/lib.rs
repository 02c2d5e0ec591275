//! A CHIP-8 virtual machine: memory, registers, call stack, framebuffer,
//! keypad and timers, with each instruction's effect stated as a
//! transition of an abstract machine model.

pub mod chip8;
pub mod constants;
pub mod laws;
pub mod machine;
mod random;

pub use chip8::{Chip8, Chip8State};
pub use constants::{
    CHIP8_MEMORY, CHIP8_VIDEO_HEIGHT, CHIP8_VIDEO_WIDTH, KEYPAD_SIZE, PROGRAM_START, REGISTERS_V,
    STACK_HEIGHT,
};
