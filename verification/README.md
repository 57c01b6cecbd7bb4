# hprof_tui

A terminal browser for Java/Android HPROF heap dumps, whose analyses and
interface logic are verified with Verus.

- `src/` — the verified library:
  - `dump`: the dump header and the calls into `jvm_hprof` that read records;
  - `segment`: the framing of the sub-records in a heap dump segment, and
    which of them `jvm_hprof` can read;
  - `parser`: one pass over a dump's records: totals, GC roots, the class
    histogram and duplicated strings (`analyze_hprof`, `HeapScan`);
  - `retained`, `graph`, `classagg`, `sort`: the object graph and the bytes
    that each class keeps alive on its own (`compute_retained`,
    `GraphBuilder`);
  - `app`, `events`: the state of the interface and what each key does;
  - `ui`, `text`, `utf8len`, `objid`, `names`, `heap`: number and text
    rendering, object-id parsing, class names, the values read from a dump.
- `app/` — the program around it: command line, memory-mapping the file,
  the terminal loop and drawing, and the leak-suspect percentages (floating
  point).
- `tests/` — tests of the library, among them small dumps built byte by byte.

The HeapQL query engine, the dominator tree and the object inspector need
the analysis engine of the `hprof-analyzer` crate.  `Cargo.toml` names it,
but the version that can be had (0.3.2) does not build against the `zip`
release it pulls in, so the program runs without it: the query tab reports
an error, and the dominator tree and the inspector stay empty.
