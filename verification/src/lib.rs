//! Verified core of a small x86-64 hobby kernel: bit-field encodings of
//! hardware descriptors, page maps, the frame allocator, the kernel's hash
//! map, windows, layers and pixel writers, the FAT volume and file
//! descriptors, ELF checks, the terminal, its task and its commands, the
//! main window's text box, the choice of the USB host controller, the
//! logger, and the task, timer and message machinery.
use vstd::prelude::*;

pub mod bitfield;
pub mod bytes;
pub mod paging;
pub mod x86_descriptor;
pub mod segment;
pub mod interrupt;
pub mod graphics;
pub mod frame_buffer;
pub mod font;
pub mod window;
pub mod error;
pub mod message;
pub mod memory_manager;
pub mod collections;
pub mod layer;
pub mod timer;
pub mod task;
pub mod console;
pub mod mouse;
pub mod file;
pub mod app_event;
pub mod fat;
pub mod acpi;
pub mod logger;
pub mod util;
pub mod chars;
pub mod elf;
pub mod terminal;
pub mod queue;
pub mod command;
pub mod pixel_writer;
pub mod page_maps;
pub mod text_box;
pub mod pci;

verus! {


} // verus!
