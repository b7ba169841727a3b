//! Boot-to-kernel bring-up logic.
//!
//! On the loader side: the boot sequence (`boot`) and the placement of a
//! 64-bit ELF kernel image (`loader`). On the kernel side: the flat segment
//! table (`segment`), the identity page tables (`paging`), the PCI bus scan
//! and device lookups (`pci`), the USB host-controller lifecycle and mouse
//! observer (`usb`), and the frame buffer, glyphs, console and mouse cursor
//! (`graphics`, `font`, `console`, `mouse`).

pub mod boot;
pub mod console;
pub mod error;
pub mod font;
pub mod graphics;
pub mod loader;
pub mod memory_map;
pub mod mouse;
pub mod paging;
pub mod pci;
pub mod segment;
pub mod usb;
