# rustlibc

A C standard library core whose logic is verified with Verus.

- `src/` is the verified library. C strings and memory blocks are slices
  (`&[u8]`), pointer results are indices, and every function states its
  result over sequence models (`cstr.rs` holds the model of a C string).
  Routines that talk to the kernel are split: the library decides what to
  do and interprets the answers (`stdio`, `dirent`, `malloc`, `time`,
  `platform`), and the caller performs the system calls. `printf` formats
  a format and a list of argument values.
- `app/` is the C ABI: the exported `extern "C"` functions, the raw system
  calls, `errno`, the standard streams, the process entry point,
  `setjmp`/`longjmp`, and the floating-point functions.
- `tests/` runs the library on concrete values.
