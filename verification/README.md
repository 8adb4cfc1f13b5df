# kernel

The console of a small x86_64 kernel booted by Limine: it logs through the
`log` crate to a 16550 serial line and, when the boot loader hands over a
linear frame buffer, to the screen.

- `src/` is the library, verified with Verus: pixel encoding
  (`rgb_pixel_info`), rectangles (`geometry`), the frame buffer and its
  drawing operations (`frame_buffer`), text layout on the screen
  (`console`), grapheme splitting and CR-LF conversion for the serial line
  (`graphemes`, `writer_with_cr`), and the logger's level and colour
  decisions and the ANSI colouring of serial text (`logger`). The calls into
  embedded-graphics, unicode-segmentation, owo-colors and log go through a
  few trusted wrappers whose contracts are stated over the library's own
  types.
- `app/` holds what runs on the machine: the boot entry point and Limine
  requests, the serial port, the mapping of the frame buffer, the
  `DrawTarget` and `Log` implementations and glyph rendering with
  embedded-graphics, and the host-side runner that starts QEMU.
- `tests/` exercises the library on concrete values.
