# Cairn

Cairn is a small capability kernel for x86-64. There is one system call, the invocation of
a capability; memory, messages, time, stored objects and device queues are all reached
through it.

- `src/` is the verified library: the capability and object tables, the capability space
  of all domains with its endpoints and notifications, the frame allocators, the object
  store, the scheduler and the supervisor, and the logic of the drivers.
- `app/` is the kernel around it: boot, ports, device memory, page tables, interrupts.
- `tests/` runs the library on concrete values.

What the library promises as a whole stands in proof functions whose names begin with
`law_`: delegation never amplifies rights, revocation is complete and lasts, no sequence of
operations creates authority, a fault is contained in its domain, the object store commits
atomically and gives back what was put into it.
