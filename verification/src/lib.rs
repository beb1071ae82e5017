//! Actors of the TAPS_TT threshold signing protocol and the suite that
//! benchmarks them.
#![allow(non_snake_case)]

pub mod authority;
pub mod bench_config;
pub mod bench_run;
pub mod bench_stats;
pub mod bytes;
pub mod combiner;
pub mod crypto;
pub mod group;
pub mod keys;
pub mod laws;
pub mod lobby;
pub mod network;
pub mod ordered;
pub mod primitives;
pub mod relay;
pub mod scheme;
pub mod signer;
pub mod signing;
pub mod signing_laws;
pub mod text;
pub mod tracer;
pub mod tracer_mesh;
pub mod tracing;
pub mod tracing_laws;
pub mod wire;
