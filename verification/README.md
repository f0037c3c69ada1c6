# rust_os

The logic of a small x86-64 hobby operating system, written in Verus and proved
against its contracts, with the hardware around it kept in a thin layer of ordinary
Rust.

- `src/` — the verified library:
  - `snake` — the snake game: grid drawing, the body rebuilt from the head and its
    turn points, steering, moving, eating, collisions and apple placement. A frame
    keeps a running game well formed, and the body follows the head cell by cell.
  - `vga_text`, `boot_vga` — the 80x25 text console (printing, scrolling, writing
    at a place, clearing), and the variant the first boot console used.
  - `pixels` — the 320x200 graphics screen: pixels, clearing, rectangles.
  - `menu`, `apps` — the menu's state, drawing and key handling; the text applications.
  - `keyboard`, `timer`, `interrupts`, `serial`, `exit` — handler slots, scancode
    decoding, the tick counter and small hardware constants.
  - `memory` — the frame allocator over the boot loader's memory map.
  - `random` — the xorshift generator.
  - `wc`, `split` — the word-count tool's parsing and counting, and the slice split.
- `tests/` — tests of the library on concrete values.
- `app/` — the rest: boot, descriptor tables, interrupt handlers, video memory, the
  serial line, the event loops, and the `wc` tool's file reading and printing.
