# mvsync

A task manager that runs synchronous and asynchronous tasks on a fixed set of worker
threads, with semaphores and fences for control flow and command buffers for recording
chains of tasks.

- `src/` is the verified core, checked by Verus: tasks, their states and handles, the
  synchronisation objects, the queue (submission, and each round of the queue thread over
  the tasks it holds) and what a worker does after polling a task, command buffers and their
  baking, the timer queue, sleeping futures and the clock. Each module
  states its contracts over views of its types; the properties that relate several
  operations are stated and proved as `law_*` proof functions.
- `app/` is plain Rust around the core: it spawns the queue and worker threads and runs
  their loops, creates the channels between them, polls futures, carries out the sends and
  settlings that the core decides, and wraps closures into tasks.
- `tests/` exercises the core on concrete values.
