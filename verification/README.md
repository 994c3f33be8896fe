# veos

The core of the VeOS kernel as a verified library: the logic of the kernel
and of its initramfs creator, each function with a contract that Verus
proves.

- `src/` holds the library: addresses and memory areas (`memory`), pages and
  page table flags (`paging`), page tables and writing through them into
  physical memory (`page_table`), the boot-time kernel mappings
  (`kernel_map`), the physical frame allocator (`free_list`),
  the kernel heap (`linked_list_allocator`), address spaces and stacks,
  the initramfs format (`initramfs`, `mkinitramfs`, `config`), ELF loading
  (`elf`), time, the scheduler and its queues, process creation, system call
  decoding and the decision each call takes, the VGA text screen, the LAPIC and serial port register values,
  and the multiboot information.
- `tests/` runs the library on concrete values.
- `app/` is the initramfs creator program and the parts of the kernel that
  touch the machine: port and register writes, the screen buffer, the
  logger, the heap allocator, the paging set-up and the code that carries out
  the library's decisions on system calls.
