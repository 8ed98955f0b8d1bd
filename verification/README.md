# clean_slate

The deterministic core of a small x86-64 kernel with a Linux personality, written and proved in Verus,
and the machine code around it.

- `src/` is the verified library. `mm` keeps physical memory, page-table walks, carve-outs and address
  spaces; `sched` keeps threads, waiting and the floating-point state; `process` keeps processes, their
  teardown and the Linux personality: descriptors, files, images, memory, children, signals and sockets.
  Each type has a mathematical model, each function a contract over it, and functions named `law_...`
  state what holds across calls.
- `tests/` runs the library on concrete values.
- `app/` drives the library on the machine: it changes page tables and control registers, copies user
  memory, talks to the services and switches threads. What it needs of assembly and of services are the
  traits in `app/services.rs`.

Page-table indices, entry flags and entry addresses come from the `x86_64` crate, through the wrappers in
`src/mm/x86.rs`. Their contracts are the only ones that are believed without proof.
