# simulation_taps_tt

The actors of the `TAPS_TT` threshold signing protocol, verified with Verus,
and a networked simulation and benchmark around them.

- `src/` is the verified library.
- `tests/` runs the library, with a small complete signature scheme standing in
  for the real one.
- `app/` is the program: processes, sockets, files, serialization, and the
  scheme itself.

## Actors

- **Authority** - a one-shot setup server. It generates key pairs for the
  signers and the combiner, computes the thresholds `t = floor(n/2) + 1` and
  `t_e = floor(2*n_3/3) + 1`, waits for everyone to connect (`lobby`), and
  hands out signed and encrypted credentials. It never sees a tracer secret.
- **Combiner** (`combiner`, `signing`) - runs the commit/challenge/respond
  rounds with the signers and proves that it signed accountably. Of the
  tracers it learns only their public keys `pk_k`, from which it computes the
  group key `pk_e = prod_k pk_k`.
- **Signer** - one signing participant.
- **Tracer** (`tracer`, `tracing`, `tracer_mesh`) - generates its share of the
  group key with the other tracers over direct links, verifies the combiner's
  evidence against its own keys, and traces the quorum that signed.

`relay` passes messages on between tracers that have no direct links.

## What is proved

Every actor is generic over a `scheme::Scheme`: the operations of the signature
scheme and its wire encodings. Nothing is assumed of them. The contracts say
which operation an actor calls on which values, and what it does with every
possible result. `primitives` holds what is taken on trust of other crates:
hashing, signatures, key agreement, authenticated encryption, randomness and
the clock. `laws` states what holds between actors.

Functions that read the machine's clock come in pairs: `f_at` takes the time
and is specified exactly, `f` reads the clock and calls it.

The benchmark suite's command line, output parsing, statistics and reports are
in `bench_config`, `bench_stats` and `bench_run`; only averages, which need
floating point, are computed in `app/`.
