# rust_tp

A work-stealing thread pool whose scheduling is verified with Verus.

- `src/` is the library: the queues and how workers search them, the choice between spinning,
  sleeping and leaving, the dealing out of cores, round-robin waking, submission and shutdown.
- `app/` gives each worker a thread, wakes the workers that the library names, and squares some
  numbers as a demonstration.
- `tests/` runs the library on concrete values.

## Layout of the library

| Module | What it holds |
|---|---|
| `entry` | `ThreadPool` and `Yard`: building a pool, submitting, shutting down, reporting |
| `pool` | the same on a journal, and what holds of several submissions or pools |
| `entry::journal` | the calls on shared things, and the record of them |
| `worker`, `station`, `patrol` | the turns of a worker's thread, what it works with, and how far it has come |
| `search` | the order in which queues are searched |
| `backoff` | spin 200 times, then park |
| `dispatch` | which worker is woken for a new job |
| `affinity` | which core a worker is pinned to |
| `report` | the lines printed about workers |
| `lifecycle` | all threads of a pool together, and what holds of every course of events |
| `progress` | in which order workers are woken and jobs claimed, and how counts add up |
| `eventually` | that every accepted job is run, if the threads are let run |
| `trace` | how the recorded calls make up the events of the pool's life |
| `outside` | what is assumed of `crossbeam_deque` and `core_affinity` |

## How a worker searches

A search reads the shutdown flag, then asks the worker's own queue, the global queue and the
queues of all workers in order. A worker leaves only if the flag was up before the search began and
every queue was then found empty: `Worker::turn` is proved to make these calls from its station, in
this order, and no others from there. In the model of `lifecycle`, where the threads' steps follow
one another in any order, `law_clean_shutdown` shows that for this reason no accepted job is left
behind once all threads have ended, and `law_panics_spare_other_jobs` shows the same of a pool in
which jobs panic, as long as one worker is not lost to a panic.

## What contracts say of shared things

Queues, flags and counters are shared between threads, so no contract can say what they hold.
Contracts say instead which calls were made on them, with which answers and in which order. Every
such call goes through a method of `Journal`, which appends it to a record that exists for the
proofs only. A journal cannot be copied, only `entry` can open one, and a worker's journal is bound
to its station. So the functions of `pool` and `station` have no other way to the shared things they
are given, and the record holds all their calls on them. It does not hold calls that go through
other journals: a function could build a pool of its own, whose calls are on other things, and that
the short functions of `entry` open no second journal is seen by reading them.

What the model of `lifecycle` takes for granted of queues, flag, tickets and wake-ups is what their
documentation promises: the global queue hands out its oldest job, a flag that was raised stays
raised, tickets are drawn in turn, and a thread that was woken does not go to sleep before it has
looked again. That the operating system lets every thread run is not shown; it is the premise of
`eventually`, and `progress` says how many steps of a worker it takes until a waiting job is claimed.
