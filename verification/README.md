# fibonacci_vsa

Zeckendorf-coded vectors. Every value is written greedily as a sum of
Fibonacci numbers (bit `k` stands for `fib(k)`, with `fib(0) = 1, fib(1) = 2`);
two values are compared through the bits they share ("wormholes") and the
bits in which they differ. A signed variant keeps one trit per position.

Layout:

- `src/` — the library, verified with Verus:
  - `fib.rs`: the Fibonacci basis and its table;
  - `representation.rs`: greedy decomposition, exactness, the
    no-neighbouring-bits property and Zeckendorf uniqueness;
  - `bits.rs`: bit-level models of `u128`/`u32` words and bit counting;
  - `zeckendorf.rs`: `ZeckendorfBits` (encode, decode, popcount, resonance);
  - `vector.rs`: `ZeckendorfVector`, the wormhole census and the pairwise
    wormhole-count table;
  - `grid.rs`: the `ndarray` table that holds pairwise counts;
  - `signed.rs`: `SignedZeckendorf`, `PentaGroup`, `FibVec10K`, bf16 alignment;
  - `zeckengold.rs`: the lattice generator's integer draws, `MonoBundler`.
- `app/` — the demo program and the floating-point side (γ-warped spiral
  coordinates, bent and coarse distances, cosine and Spearman baselines,
  the surround bundler).
- `tests/` — tests of the library.
