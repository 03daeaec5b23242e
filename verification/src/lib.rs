//! Core of a small x86_64 kernel: trap and hardware-interrupt dispatch, and a
//! segregated free-list heap allocator, modelled over an explicit machine
//! state so that every decision the kernel makes is stated and proved.
//!
//! Hardware access itself (port reads and writes, table loads, the halt
//! instruction) lives outside this library; the library computes what the
//! boundary must do: which handler a vector dispatches to, which controller
//! an acknowledgment is addressed to, which block an allocation returns.

pub mod architecture;
pub mod cmos;
pub mod exceptions;
pub mod fallback;
pub mod fixed_size_blocks;
pub mod gdt;
pub mod hardware;
pub mod idt;
pub mod keyboard;
pub mod qemu;
pub mod vga;
