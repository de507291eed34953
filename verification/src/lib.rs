//! Certified-kernel bookkeeping: the claim/refusal algebra, the residual
//! implication relation, the certified-topology identifiers and the integer
//! decision procedures (node identity, dyadic sampling joins, deck
//! accounting, graph reference resolution, promotion gates) that the
//! interval machinery of the kernel relies on.

pub mod assemble;
pub mod atlas;
pub mod canal;
pub mod certs;
pub mod claims;
pub mod config;
pub mod contact;
pub mod engine;
pub mod evidence;
pub mod graph;
pub mod identity;
pub mod leaf;
pub mod promote;
pub mod rational;
pub mod residual;
pub mod residuals_r89;
