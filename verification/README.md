# zeo

zeo is the execution core of a lightweight JavaScript runtime for AI agents,
with a benchmark suite that measures it against other runtimes.

## Layout

- `src/` — the library, verified with Verus:
  - `resource.rs`: the size-class memory pool, the garbage collection
    scheduler, the leak detector and the resource manager;
  - `monitor.rs`: execution figures per script, the console report with its
    bottlenecks and recommendations, the CPU sampler's state and the
    performance monitor;
  - `execution.rs`: scripts, the script cache and the execution engine;
  - `engine.rs`: engine types, values, errors, the engine trait, the V8
    stand-in and the engine factory;
  - `integration.rs`, `integration/`: the Node.js and OpenClaw globals;
  - `bench.rs`: the benchmark plan, warm-up handling, measurements and
    comparison figures;
  - `sysmon.rs`, `text.rs`: the scanners that read the system tools' output;
  - `clock.rs`: monotonic time.
- `tests/` — tests of the library.
- `app/` — the program: the C interface, the QuickJS engine, the
  asynchronous front of the execution engine, the samplers and the benchmark
  suite's driver and reports.
