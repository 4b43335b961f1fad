//! A verified CHIP-8 execution engine.
//!
//! The engine owns a flat 4096-byte memory, sixteen 8-bit registers, a
//! 16-bit index register and program counter, a bounded call stack, two
//! 60 Hz timers and a 64x32 monochrome display buffer.  Instructions are
//! fetched two bytes at a time, decoded into nibble fields and dispatched;
//! the display is mutated only by the clear and XOR-draw operations.
//!
//! Host concerns (the window that shows the pixels, key input, the file
//! read that produces the program image) live outside this crate; the
//! engine exchanges plain values with them.

pub mod decoder;
pub mod display;
pub mod machine;
pub mod pacer;
