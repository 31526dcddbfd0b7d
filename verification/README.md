# storage_trace

An opt-in collector of storage writes and nested contract calls, driven by the
evaluation hooks of a Clarity virtual machine, written and proved in Verus.

Traces are recorded in batches, which mirror the nesting of calls: a batch that is
committed hands its traces to the batch around it or, at the top, to the committed
traces; one that is rolled back takes them with it, unless it was read-only. A byte cap
per transaction can be set; past it, a marker stands in place of the traces and counts
them.

- `src/collector.rs`: the collector, `StorageTraceCollector`.
- `src/model.rs`: its state as a mathematical object, and what each operation makes of
  it. The contracts in `collector.rs` speak of this model.
- `src/hooks.rs`, `src/value.rs`, `src/principal.rs`: what the hooks hand over.
- `src/events.rs`, `src/size.rs`: the traces, and what they count against the cap.
- `src/consensus.rs`, `src/hex.rs`, `src/text.rs`: the text that stands for a value in
  a trace.
- `src/laws/`: what holds of the collector as a whole. Among other things: rolling back
  restores the traces of before; without a cap a transaction leaves exactly the traces
  that were not rolled back, and the committed traces reconstruct the storage; with a
  cap every trace that was not rolled back is kept, in its order, or counted by a marker,
  up to the largest count that a marker holds. Within one batch a cap keeps the longest
  beginning that fits, and a single marker counts the rest. Over several batches that need
  not be so: each can have a marker of its own, and a trace that fits in an inner batch is
  kept behind the marker of an outer one.
