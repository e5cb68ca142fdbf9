# img_caster

Multicast transfer of disk images: one sender streams a file or drive in slices of
fixed-size blocks over UDP multicast, receivers acknowledge each slice or ask for the
blocks they miss, and write what they receive to their own file or drive.

- `src/` is the library, verified with Verus: the bit map, the ring-buffer FIFO that sits
  between network and disk, the wire format of the protocol messages, the slice
  bookkeeping, and the decisions the sender and the receivers take in their loops.
- `app/` is the program around it: sockets, files, threads, the keyboard and the command
  line (`img_caster send ...`, `img_caster receive ...`).
- `tests/` runs the library on concrete values.
