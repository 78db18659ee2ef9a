//! A cycle-accurate simulator for synchronous digital circuits.
//!
//! A model is a store of named components whose inputs name outputs of
//! other components. The simulator lays the outputs out as one vector of
//! signals, orders the components so that each combinatorial component is
//! evaluated after those that it depends on, and then runs the model cycle
//! by cycle, forwards and backwards.

pub mod common;
pub mod component;
pub mod components;
pub mod graph;
pub mod laws;
pub mod model;
pub mod netlist;
pub mod simulator;
