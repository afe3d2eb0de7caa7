# r9v_t0

Reference kernels for transformer inference on the CPU, verified with Verus.

Every kernel's contract states its outputs element by element, and each of its
errors with the operands on which it comes. Numbers are held as bit patterns, and
the machine's arithmetic is a function that the caller supplies, so that results
are stated over it and hold for any arithmetic that depends on its arguments
alone.

- `src/dtype.rs`, `src/buffer.rs`: conversions between element types, tensors and
  views.
- `src/activation.rs` to `src/collectives.rs`: kernels without state.
- `src/batch.rs`, `src/kv_*.rs`, `src/visibility.rs`, `src/attention.rs`: paged
  and latent caches and attention over them.
- `src/causal_conv1d.rs`, `src/linear_attn_scan.rs`: kernels that carry state.
- `src/graph.rs`, `src/exec*.rs`, `src/kernels.rs`: step graphs and their executor.
- `src/double*.rs`, `src/reference*.rs`, `src/tolerance.rs`: references in double
  precision and comparison with them.
- `src/harness.rs`, `src/gates.rs`, `src/refusal.rs`, `src/fixtures.rs`, `src/scheme_rows.rs`: trials
  of kernels.
- `*_laws.rs`: what holds across functions.
- `app/`: the machine's floating-point arithmetic and the texts of errors.
