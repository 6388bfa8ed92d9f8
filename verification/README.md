# addivortes

The verified core of Bayesian additive Voronoi tessellation regression, written in
Verus. Every function under `src/` carries a contract; all are proved but those of the few
wrappers around outside functions, which say what they rely on.

- `src/engine/` — data and boundary validation, configuration, tessellations, the
  backfit step, posterior draws, predictions, saved models, errors.
- `src/config_spec.rs` — a configuration as data, checked and resolved, compared and
  copied.
- `src/conformance/` — checks for components that users write.
- `src/calibration/` — the joint-distribution cross-check, rank ledgers, draws from the
  structural prior.
- `src/diagnostics.rs` — splits, ranks and counts behind the convergence diagnostics.
- `src/binary64.rs`, `src/value.rs`, `src/order.rs`, `src/message.rs`, `src/named.rs`,
  `src/search.rs` — numbers by their bit pattern, equality and copies of what holds
  them, sorting, messages with numbers in them, named lists, first positions.
- `src/extensions.rs` — the traits that users implement.
- `app/` — what surrounds the library: floating-point numerics, random draws, files,
  printed reports and serialisation.

Numbers are IEEE 754 binary64 patterns. The library classifies, compares, sorts and
counts them; arithmetic on them happens in `app/`, which hands the results back for the
library to decide on. Messages keep their numbers as numbers, so that they can be
written out where floating-point formatting is at hand.
