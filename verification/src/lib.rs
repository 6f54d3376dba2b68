//! The logic of a small desktop operating system: text console, command
//! shell, windows, keyboard routing, page rendering and boot-time planning.
pub mod boot;
pub mod console;
pub mod desktop;
pub mod framebuffer;
pub mod interrupts;
pub mod laws;
pub mod memory;
pub mod net;
pub mod pci;
pub mod shell;
pub mod system;
pub mod task;
pub mod text;
pub mod vga_buffer;
