//! The primitive components.

pub mod add;
pub mod constant;
pub mod mem;
pub mod mux;
pub mod probe;
pub mod probe_out;
pub mod reg_file;
pub mod register;
pub mod sext;
pub mod wire;
