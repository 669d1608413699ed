//! The verified core of the INDOMINUS kernel: the data structures, parsers, allocators
//! and decision rules that the boot code and the hardware drivers are built around.
pub mod acpi;
pub mod ahci;
pub mod aslr;
pub mod block;
pub mod boot;
pub mod bytes;
pub mod cpu;
pub mod debug;
pub mod elf;
pub mod fat32;
pub mod gdt;
pub mod idt;
pub mod initrd;
pub mod interrupts;
pub mod kernel;
pub mod keyboard;
pub mod laws;
pub mod memory;
pub mod mmio;
pub mod pci;
pub mod process;
pub mod selftest;
pub mod serial;
pub mod vfs;
