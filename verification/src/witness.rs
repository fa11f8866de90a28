//! Witness computation: the field-element memory codec and the protocol
//! adapter over a module instance.

pub mod circom;
pub mod error;
pub mod field;
pub mod layout;
pub mod memory;
pub mod radix;
pub mod region;
pub mod runtime;
