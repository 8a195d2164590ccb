# syscall_test

A runtime for programs that talk to the Linux x86-64 kernel directly, without libc,
split into a verified library and a thin system layer.

- `src/` (verified with Verus):
  - `abi` — the start-up stack layout (argument count, argument and environment
    pointers, auxiliary vector), read word by word, and lookups in it.
  - `fs` — the decisions around file system calls: open flags from a mode string, and
    the outcome of each call from what the kernel returned.
  - `mem` — a heap that grows and shrinks the program break, with its bookkeeping.
  - `support` — `strlen`, `memcpy`, `memset`, `memcmp` over byte slices.
  - `syscall` — zero-padded paths, the file size in a `struct stat`, the break that
    `sbrk` asks for.
  - `util` — zero-terminated strings as bytes and as UTF-8 text.
- `app/` — the raw system calls, reading memory at the initial stack pointer, the
  process-wide heap, printing, and self-tests that touch the file system.
- `tests/` — tests of the library on concrete values.
