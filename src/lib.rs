//! A CHIP-8 virtual machine core: bounded addresses, memory, registers, a
//! call stack, a framebuffer, the opcode decoder and the execution engine.

pub mod mem;
pub mod screen;
pub mod opcodes;
pub mod stack;
pub mod keyboard;
pub mod chip;
