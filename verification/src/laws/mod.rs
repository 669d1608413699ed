//! What the parts of the kernel are for, stated over bytes, inputs and results.
pub mod acpi;
pub mod archive;
pub mod boot;
pub mod checks;
pub mod devices;
pub mod elf;
pub mod fat_delete;
pub mod fat_directory;
pub mod fat_entries;
pub mod fat_table;
pub mod fat_volume;
pub mod memory;
pub mod processes;
pub mod select;
