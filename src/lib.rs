//! Authenticated-wire memory and gate engines for two-party boolean computation
//! under a global linear correlation `M = K ^ (x * Δ)`.

pub mod block;
pub mod circuit;
pub mod correlated;
pub mod decode;
pub mod garble;
pub mod gc;
pub mod gf;
pub mod hash;
pub mod memory;
pub mod ot;
pub mod prg;
pub mod quicksilver;
pub mod range;
pub mod store;
pub mod zk;
pub mod zk_store;
