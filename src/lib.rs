//! Host-local network observation: decoding the kernel's socket tables,
//! attributing sockets to processes, stamping per-process throughput,
//! naming remote endpoints, and isolating the failures of all of these.
//!
//! Everything here is pure: reading the pseudo-files, sleeping and running
//! lookups is left to the caller, who hands the library plain values and
//! receives plain values and decisions back.

pub mod address;
pub mod decimal;
pub mod error;
pub mod formatter;
pub mod models;
pub mod parsing;
pub mod processes;
pub mod recovery;
pub mod resolver;
pub mod sockets;
pub mod text;
