//! Proof-job protocol of a relay that turns a theorem and its proposed
//! solution into a receipt of a zero-knowledge proof.
//!
//! - `abi`: the Solidity ABI layouts of the wire formats, as spec functions;
//! - `codec`: the job envelope (request) and journal / receipt encodings;
//! - `statement`: the canonical statement and the commitment over a solution;
//! - `relay`: admission, validation and interpretation of a proof job;
//! - `configuration`: the relay's settings.
pub mod abi;
pub mod codec;
pub mod configuration;
pub mod relay;
pub mod statement;
