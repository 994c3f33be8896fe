//! Verified core logic of the VeOS kernel: address arithmetic, physical
//! frame bookkeeping, the kernel heap, address spaces and stacks, ELF and
//! initramfs parsing, the scheduler and its queues, system call decoding,
//! the VGA text screen, the register values of the LAPIC and the serial
//! port, the multiboot information, and the initramfs creator.
//!
//! Addresses and lengths are held as `u64`: the kernel runs on x86_64 only.

pub mod memory;
pub mod paging;
pub mod page_table;
pub mod free_list;
pub mod linked_list_allocator;
pub mod file_handle;
pub mod initramfs;
pub mod mkinitramfs;
pub mod address_space;
pub mod elf;
pub mod time;
pub mod delta_queue;
pub mod scheduler;
pub mod process;
pub mod vga_buffer;
pub mod lapic;
pub mod serial;
pub mod stack;
pub mod syscalls;
pub mod multiboot;
pub mod cpu_local;
pub mod sync;
pub mod logger;
pub mod cpu;
pub mod config;
pub mod kernel_map;
