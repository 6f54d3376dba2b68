# CrabOS

The logic of a small x86_64 desktop operating system, verified with Verus, and
the kernel code around it.

`src/` is the verified library. It holds everything that decides or computes:

- `vga_buffer`: a terminal with wrapping and a 128-line scrollback ring.
- `shell`: line editor, history, argument parser, completion and commands.
- `console`: two terminals and the picture of the desktop with their windows.
- `desktop`: window layout, focus and dragging from mouse packets.
- `task`: the keyboard queue and decoding, and routing of keys to the shells.
- `net`: URLs, pages as text, and the e1000 adapter's bring-up and rings.
- `pci`: the search for a device.
- `system`: processor and memory facts, and their display.
- `framebuffer`: drawing of console cells into pixels.
- `boot`, `memory`, `interrupts`: memory map, page-table plans, clock and ports.

Terminals are modelled as `Screen`, a shell on its screen as `Terminal`, the
desktop as `Desk`, and the whole of what the keyboard and mouse act on as
`Station`. Contracts say how each operation changes these, exactly; what holds
across operations is stated by the public proof functions.

Where the outside work alternates with decisions (adapter, mouse controller, PCI
bus), the library is a state machine that asks for one port or register access
at a time. Output goes to the caller as the cells to draw.

`app/` is the kernel around the library: UEFI entry, page tables, interrupt
handlers, ports, packets and the main loop.

`tests/` runs the library on concrete values.
