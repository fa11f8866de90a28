//! Host-side adapter for a sandboxed circuit-evaluation module: a codec for
//! field elements in the module's linear memory, and the calls into the
//! module's exports that compute a witness.

pub mod witness;
