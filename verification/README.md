# mikan_os

The logic of a small x86-64 hobby kernel, written in Verus and proved
against its contracts: a FAT32 volume (lookup, loading, creating and writing
files), file descriptors, ELF checks for applications, the terminal's line
editor, its text layout and commands, the terminal task's message handling,
the main window's text box, the desktop console, the choice of the USB host
controller among PCI devices, a printf-style logger, window and layer compositing,
pixel writers, the frame allocator, task and timer scheduling, messages,
segment and interrupt descriptors, and the encoding of page-map entries and
linear addresses.

- `src/` is the verified library. Each module holds its types, the spec
  functions that model them, the executable functions with their contracts,
  and the public proof functions that state the laws of the module (what a
  read gives back after a write, what `free` undoes, that a queue is FIFO,
  and so on).
- `tests/` runs the library on concrete values.
- `app/` is a host-side terminal around the library: it opens a volume
  image, reads command lines and prints what the kernel's terminal prints.
  It also holds the glue that needs the firmware's memory map (`uefi`) or
  rasterises TrueType glyphs (`rusttype`, in floating point); loading and
  parsing the font is in the library.
