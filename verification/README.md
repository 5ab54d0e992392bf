# rusty_rtos_core

The shared vocabulary of an RTOS kernel remade from FreeRTOS, written in
Verus and proved against its contracts: tick counts of a chosen width,
bounded priorities, generational handles and the arena that refuses a stale
one, `list.c` remade over indices, `FreeRTOSConfig.h` as a trait, the trace
vocabulary, and the seams a kernel is generic over.

## Layout

- `src/` — the verified library. Each public function states in `ensures`
  what it returns and changes, over the spec views of its types:
  - `arena` — an arena is a sequence of `(generation, object)` slots; insert,
    lookup, removal and iteration are stated over it.
  - `list` — a set of lists is one sequence of item ids per list, a cursor per
    list and a value per item; `insert` is `vListInsert`, `insert_end` is
    `vListInsertEnd`, `remove` steps the cursor back, `next_round_robin`
    rotates.
  - `tick`, `time`, `config` — tick arithmetic modulo the width, duration and
    timeout conversions, configuration checks.
  - `handle`, `priority`, `error`, `isr`, `trace`, `hooks`, `port` — the value
    types and seams, with their laws as public proof functions.
- `tests/` — the library's scenarios, and its laws on concrete values.
- `app/` — what the verifier does not take: the heap seam, whose calls carry
  raw allocations, and the allocator seam of a hosted deliverable.
