# indominus

The logic of the INDOMINUS kernel and of its boot loader as a Verus library. The
library decides and computes; what touches the machine stays outside of it.

- `src/` is the library. Every function in it is verified against its contract.
  - `boot`: layout, loading and relocation of the kernel image.
  - `memory`: the memory map, the frame allocator, page tables and relocation.
  - `elf`, `initrd`: programs, and the archive that the kernel is shipped with.
  - `process`: the process table, the scheduler, context switches, pipes, wake-ups.
  - `block`, `ahci`, `fat32`: storage, from the registers of a disk to files.
  - `acpi`, `pci`, `interrupts`, `keyboard`, `mmio`, `gdt`, `idt`, `cpu`, `aslr`, `serial`:
    the devices of the board and the processor.
  - `selftest`, `debug`, `kernel`: the checks at start, audits, and what the kernel decides
    while it starts.
- `tests/` runs the library on given values.
- `app/` is the machine around it: ports, registers, page tables, interrupt entry points,
  and the firmware's services.

Hardware is never called from the library. Where an operation alternates between the
hardware and decisions, the library holds the state of the operation: it says which access
is next and takes what came of it. Text for the console is appended to a buffer.

Proof functions whose names begin with `law_` state what holds across several functions,
such as that a sector, a file or a directory entry reads back as it was written.
