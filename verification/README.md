# zephyrlite

The userland logic of the ZephyrLite operating system (a small x86 OS on
the pCern capability microkernel), written and proved in Verus.

`src/` is the verified library:

- `ipc` — the wire encoding of every request to the name service, the
  storage driver, the filesystem and the console, and the decoding of their
  replies; also the retrying name lookup.
- `nameservice` — the registry: allowlisted registration and lookup.
- `console` — the ANSI escape parser, the PS/2 scancode decoder, and the
  console server's request handling (line and raw input, reader ownership).
- `editor` — the full-screen editor's text buffer, keys and redraw.
- `shell` — command splitting, the `read`/`run` load session and the edit
  session, each as a sequence of steps.
- `drivers` — the ATA disk driver's register values and status checks and
  the storage service's request handling, and the RTL8139 network driver's
  receive-ring arithmetic and request handling.
- `fs` — a FAT32 filesystem over any `BlockDevice` (volume discovery, FAT
  chains mirrored to both copies, root-directory files, reads, writes,
  truncation) and the filesystem service's request handling.
- `net` — the Internet checksum, the ARP/ICMP responder, TCP segment
  building and parsing, and the single-connection TCP client service.

Each service's receive loop, the system calls, port I/O, the VGA screen,
the drivers' hardware access and the storage connection are in `app/`,
which drives the library and makes no decisions of its own. `tests/` exercises the library, including whole
sessions against an in-memory FAT32 disk.
