# replicode

A deterministic runtime for WebAssembly programs that are replicated through
a consensus node. The consensus node orders operator commands and network
traffic into numbered batches of records; every runtime replays the same
batches and so reaches the same state. The processes run under WASI calls
that are answered from a per-process sandbox, a descriptor table and a
network address table kept by the consensus node.

## Layout

- `src/` is the library, verified with Verus. Every function states what it
  returns or changes in its `ensures`; the laws that span functions stand as
  public proof functions (`lemma_*`).
  - `record`, `batch`: the record and batch formats, their writers and
    readers, and the laws that a read gives back what was written.
  - `commands`: the operator's console commands.
  - `consensus_input`: what a batch asks of the runtime (clock advances,
    input for descriptors, process starts, network data).
  - `nat_table`, `node`: the consensus node's network table and its
    bookkeeping of batches and connected runtimes.
  - `fd_table`, `process`, `scheduler`, `clock`: the runtime's per-process
    state, the scheduler's queues, the deterministic clock and id counters.
  - `guest`, `sockets`, `fs_ops`: the WASI calls, working on guest memory as
    a byte slice.
  - `text`, `decimal`, `keyed`, `clients`: text and number helpers, an
    integer-keyed table, and the key-value client's command format.
- `app/` is the program around the library: console, files, sockets,
  threads and the wasmtime engine. `replicode consensus <mode>` runs the
  consensus node (`tcp`, `benchmark`, test server and clients);
  `replicode runtime <mode>` runs a runtime.
- `tests/` runs the library on concrete values.

## Record types

`[type: u8][process id: u64 LE][payload length: u16 LE][payload]`, with
types 0 clock (`clock:<ns>`), 1 input (`fd:<n>,body:<text>`), 2 module to
start, 3 message for descriptor 0 (`msg:<text>` or the text alone), 4 file
transfer command, 5 network data (port `u16 LE`, then the bytes).
